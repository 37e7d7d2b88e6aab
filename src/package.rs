//! Writing one build file per package: the kept license preamble, then the modules in name
//! order; and the rule that provides a build script's outputs.
use vstd::prelude::*;
use crate::bp::{find_last_key, lemma_entries_map, module_text, value_view, values_equal, BpModule, BpValue, ValueView};
use crate::crates::parent_of;
use crate::decode::{file_name_of, opt_view};
use crate::synth::{module_view, str_list, str_list_value};
use crate::decode::{is_ws, is_ws_exec};
use crate::scan::{lines_of, split_lines};
use crate::text::{append_str, chars_of, has_prefix, last_index, lex_lt, starts_with, str_eq, str_lt, string_of, string_of_range, views};

verus! {

broadcast use vstd::string::group_string_axioms;

/// `s` without white space at its start.
pub open spec fn trim_start(s: Seq<char>) -> Seq<char>
    decreases s.len(),
{
    if s.len() > 0 && is_ws(s[0]) {
        trim_start(s.drop_first())
    } else {
        s
    }
}

/// `s` without white space at its end.
pub open spec fn trim_end(s: Seq<char>) -> Seq<char>
    decreases s.len(),
{
    if s.len() > 0 && is_ws(s.last()) {
        trim_end(s.drop_last())
    } else {
        s
    }
}

pub open spec fn trim(s: Seq<char>) -> Seq<char> {
    trim_end(trim_start(s))
}

/// `s` without white space at either end.
pub fn trim_exec(s: &Vec<char>) -> (r: String)
    ensures
        r@ == trim(s@),
{
    let mut a: usize = 0;
    assert(s@.skip(0) =~= s@);
    while a < s.len() && is_ws_exec(s[a])
        invariant
            a <= s@.len(),
            trim_start(s@) == trim_start(s@.skip(a as int)),
        decreases s.len() - a,
    {
        assert(s@.skip(a as int).drop_first() =~= s@.skip(a + 1));
        a = a + 1;
    }
    let ghost t = s@.skip(a as int);
    assert(trim_start(t) == t);
    let mut b: usize = s.len();
    assert(s@.subrange(a as int, b as int) =~= t);
    while b > a && is_ws_exec(s[b - 1])
        invariant
            a <= b <= s@.len(),
            trim_end(t) == trim_end(s@.subrange(a as int, b as int)),
        decreases b,
    {
        assert(s@.subrange(a as int, b as int).drop_last() =~= s@.subrange(a as int, b - 1));
        b = b - 1;
    }
    string_of_range(s, a, b)
}

/// The two lines that open every build file written here.
pub open spec fn banner_line_1() -> Seq<char> {
    "// Soong build rules for this package, kept up to date by cargo2android."@
}

pub open spec fn banner_line_2() -> Seq<char> {
    "// Do not modify this file as changes will be overridden on upgrade."@
}

/// What stands in for the preamble of a package that had no build file.
pub open spec fn placeholder_preamble() -> Seq<char> {
    "// Please add a license.\n"@
}

/// Whether a line opens a module that this tool writes.
pub open spec fn is_module_start(l: Seq<char>) -> bool {
    has_prefix(l, "rust_"@) || has_prefix(l, "genrule {"@)
}

/// `ls` without the banner lines at its start.
pub open spec fn skip_banner(ls: Seq<Seq<char>>) -> Seq<Seq<char>>
    decreases ls.len(),
{
    if ls.len() > 0 && (ls[0] == banner_line_1() || ls[0] == banner_line_2()) {
        skip_banner(ls.drop_first())
    } else {
        ls
    }
}

/// The lines of `ls` before the first module.
pub open spec fn before_modules(ls: Seq<Seq<char>>) -> Seq<Seq<char>>
    decreases ls.len(),
{
    if ls.len() == 0 || is_module_start(ls[0]) {
        Seq::empty()
    } else {
        seq![ls[0]] + before_modules(ls.drop_first())
    }
}

/// Lines joined with line feeds between them.
pub open spec fn join_lines(ls: Seq<Seq<char>>) -> Seq<char>
    decreases ls.len(),
{
    if ls.len() == 0 {
        Seq::empty()
    } else if ls.len() == 1 {
        ls[0]
    } else {
        join_lines(ls.drop_last()) + "\n"@ + ls.last()
    }
}

/// The preamble kept from an earlier build file: its lines before the first module, after the
/// banner; a placeholder where there was no file.
pub open spec fn preamble_of(existing: Option<Seq<char>>) -> Seq<char> {
    match existing {
        Some(t) => join_lines(before_modules(skip_banner(lines_of(t)))),
        None => placeholder_preamble(),
    }
}

/// The preamble to keep from an earlier build file; see `preamble_of`.
pub fn license_preamble(existing: Option<&str>) -> (r: String)
    ensures
        r@ == preamble_of(match existing {
            Some(t) => Some(t@),
            None => None,
        }),
{
    let t = match existing {
        None => {
            return "// Please add a license.\n".to_string();
        },
        Some(t) => t,
    };
    let lines = split_lines(t);
    let ghost lv = lines@.map_values(|l: Vec<char>| l@);
    let b1 = chars_of("// Soong build rules for this package, kept up to date by cargo2android.");
    let b2 = chars_of("// Do not modify this file as changes will be overridden on upgrade.");
    let mut i: usize = 0;
    assert(lv.skip(0) =~= lv);
    while i < lines.len() && (crate::text::occurs_at_exec(&lines[i], &b1, 0) && lines[i].len() == b1.len()
        || crate::text::occurs_at_exec(&lines[i], &b2, 0) && lines[i].len() == b2.len())
        invariant
            lv == lines@.map_values(|l: Vec<char>| l@),
            b1@ == banner_line_1(),
            b2@ == banner_line_2(),
            i <= lines@.len(),
            skip_banner(lv) == skip_banner(lv.skip(i as int)),
        decreases lines.len() - i,
    {
        assert(lines@[i as int]@ == lv[i as int]);
        assert(lv.skip(i as int)[0] == lv[i as int]);
        assert(lines@[i as int]@.subrange(0, b1@.len() as int) == b1@ && lines@[i as int]@.len() == b1@.len() ==> lines@[i as int]@ =~= b1@);
        assert(lines@[i as int]@.subrange(0, b2@.len() as int) == b2@ && lines@[i as int]@.len() == b2@.len() ==> lines@[i as int]@ =~= b2@);
        assert(lv.skip(i as int).drop_first() =~= lv.skip(i + 1));
        i = i + 1;
    }
    proof {
        if i < lines@.len() {
            assert(lv.skip(i as int)[0] == lv[i as int]);
            assert(lines@[i as int]@ == lv[i as int]);
            if lv[i as int] == banner_line_1() {
                assert(lines@[i as int]@.subrange(0, b1@.len() as int) =~= b1@);
            }
            if lv[i as int] == banner_line_2() {
                assert(lines@[i as int]@.subrange(0, b2@.len() as int) =~= b2@);
            }
        }
        assert(skip_banner(lv.skip(i as int)) == lv.skip(i as int));
    }
    let ghost rest = lv.skip(i as int);
    let mut out = String::new();
    let mut first = true;
    let mut j = i;
    assert(lv.subrange(i as int, i as int) =~= Seq::<Seq<char>>::empty());
    while j < lines.len() && !(starts_with(&lines[j], "rust_") || starts_with(&lines[j], "genrule {"))
        invariant
            lv == lines@.map_values(|l: Vec<char>| l@),
            rest == lv.skip(i as int),
            i <= j <= lines@.len(),
            first == (j == i),
            before_modules(rest) == lv.subrange(i as int, j as int) + before_modules(lv.skip(j as int)),
            out@ == join_lines(lv.subrange(i as int, j as int)),
        decreases lines.len() - j,
    {
        assert(lines@[j as int]@ == lv[j as int]);
        assert(lv.skip(j as int)[0] == lv[j as int]);
        assert(lv.skip(j as int).drop_first() =~= lv.skip(j + 1));
        assert(lv.subrange(i as int, j + 1) =~= lv.subrange(i as int, j as int).push(lv[j as int]));
        assert(lv.subrange(i as int, j as int) + seq![lv[j as int]] =~= lv.subrange(i as int, j + 1));
        if !first {
            append_str(&mut out, "\n");
        }
        let l = string_of(&lines[j]);
        append_str(&mut out, l.as_str());
        assert(lv.subrange(i as int, j + 1).drop_last() =~= lv.subrange(i as int, j as int));
        assert(first ==> lv.subrange(i as int, j + 1) =~= seq![lv[j as int]]);
        assert(first ==> out@ =~= lv[j as int]);
        assert(!first ==> out@ =~= join_lines(lv.subrange(i as int, j as int)) + "\n"@ + lv[j as int]);
        first = false;
        j = j + 1;
    }
    proof {
        if j < lines@.len() {
            assert(lines@[j as int]@ == lv[j as int]);
            assert(lv.skip(j as int)[0] == lv[j as int]);
        }
        assert(before_modules(lv.skip(j as int)) =~= Seq::<Seq<char>>::empty());
        assert(lv.subrange(i as int, j as int) + Seq::<Seq<char>>::empty() =~= lv.subrange(i as int, j as int));
    }
    out
}


/// The `name` property of a module, or the empty name where it has no string `name`.
pub open spec fn module_name_view(m: BpModule) -> Seq<char> {
    let pm = m.props.view_map();
    if pm.dom().contains("name"@) && pm["name"@] is Str {
        pm["name"@]->Str_0
    } else {
        Seq::empty()
    }
}

/// The name of a module; see `module_name_view`.
pub fn module_name(m: &BpModule) -> (r: String)
    requires
        m.props.wf(),
    ensures
        r@ == module_name_view(*m),
{
    proof {
        lemma_entries_map(m.props.map@);
    }
    let mut i: usize = 0;
    while i < m.props.map.len()
        invariant
            m.props.wf(),
            i <= m.props.map@.len(),
            forall|k: int| 0 <= k < i ==> m.props.map@[k].0@ != "name"@,
        decreases m.props.map.len() - i,
    {
        if str_eq(m.props.map[i].0.as_str(), "name") {
            proof {
                lemma_entries_map(m.props.map@);
                assert(m.props.view_map()["name"@] == value_view(m.props.map@[i as int].1));
            }
            match &m.props.map[i].1 {
                BpValue::Str(s) => {
                    return s.clone();
                },
                _ => {
                    return String::new();
                },
            }
        }
        i = i + 1;
    }
    proof {
        lemma_entries_map(m.props.map@);
    }
    String::new()
}

/// `s` with `m` placed after the last module whose name does not come after `m`'s.
pub open spec fn insert_by_name(s: Seq<BpModule>, m: BpModule) -> Seq<BpModule>
    decreases s.len(),
{
    if s.len() == 0 {
        seq![m]
    } else if lex_lt(module_name_view(m), module_name_view(s.last())) {
        insert_by_name(s.drop_last(), m).push(s.last())
    } else {
        s.push(m)
    }
}

/// The modules sorted by name, keeping the order of modules of equal name.
pub open spec fn sort_by_name(s: Seq<BpModule>) -> Seq<BpModule>
    decreases s.len(),
{
    if s.len() == 0 {
        Seq::empty()
    } else {
        insert_by_name(sort_by_name(s.drop_last()), s.last())
    }
}

/// Sorts modules by name; see `sort_by_name`.
pub fn sort_modules(v: Vec<BpModule>) -> (r: Vec<BpModule>)
    requires
        forall|i: int| 0 <= i < v@.len() ==> (#[trigger] v@[i]).props.wf(),
    ensures
        r@ == sort_by_name(v@),
        forall|i: int| 0 <= i < r@.len() ==> (#[trigger] r@[i]).props.wf(),
{
    let mut r: Vec<BpModule> = Vec::new();
    let mut names: Vec<String> = Vec::new();
    let mut v = v;
    let ghost v0 = v@;
    let n = v.len();
    let mut i: usize = 0;
    let mut rev: Vec<BpModule> = Vec::new();
    while v.len() > 0
        invariant
            v0.len() == v@.len() + rev@.len(),
            v@ == v0.take(v@.len() as int),
            forall|k: int| 0 <= k < rev@.len() ==> rev@[k] == v0[v0.len() - 1 - k],
            forall|k: int| 0 <= k < v0.len() ==> (#[trigger] v0[k]).props.wf(),
        decreases v@.len(),
    {
        let m = v.pop().unwrap();
        rev.push(m);
        assert(v@ =~= v0.take(v@.len() as int));
    }
    assert(v0.take(0) =~= Seq::<BpModule>::empty());
    while i < n
        invariant
            n == v0.len(),
            i <= v0.len(),
            rev@.len() == v0.len() - i,
            forall|k: int| 0 <= k < rev@.len() ==> rev@[k] == v0[v0.len() - 1 - k],
            forall|k: int| 0 <= k < v0.len() ==> (#[trigger] v0[k]).props.wf(),
            r@ == sort_by_name(v0.take(i as int)),
            names@.len() == r@.len(),
            forall|k: int| 0 <= k < r@.len() ==> (#[trigger] names@[k])@ == module_name_view(r@[k]),
            forall|k: int| 0 <= k < r@.len() ==> (#[trigger] r@[k]).props.wf(),
        decreases v0.len() - i,
    {
        let m = rev.pop().unwrap();
        assert(m == v0[i as int]);
        let name = module_name(&m);
        let mut p = r.len();
        assert(r@.take(p as int) =~= r@);
        assert(r@.skip(p as int) =~= Seq::<BpModule>::empty());
        while p > 0 && str_lt(name.as_str(), names[p - 1].as_str())
            invariant
                p <= r@.len(),
                names@.len() == r@.len(),
                forall|k: int| 0 <= k < r@.len() ==> (#[trigger] names@[k])@ == module_name_view(r@[k]),
                name@ == module_name_view(m),
                insert_by_name(r@, m) == insert_by_name(r@.take(p as int), m) + r@.skip(p as int),
            decreases p,
        {
            assert(r@.take(p as int).drop_last() =~= r@.take(p - 1));
            assert(r@.take(p as int).last() == r@[p - 1]);
            assert(r@.skip(p - 1) =~= seq![r@[p - 1]] + r@.skip(p as int));
            assert(insert_by_name(r@.take(p - 1), m).push(r@[p - 1]) + r@.skip(p as int) =~= insert_by_name(r@.take(p - 1), m) + r@.skip(p - 1));
            p = p - 1;
        }
        proof {
            if p > 0 {
                assert(r@.take(p as int).last() == r@[p - 1]);
                assert(!lex_lt(module_name_view(m), module_name_view(r@[p - 1])));
            } else {
                assert(r@.take(0) =~= Seq::<BpModule>::empty());
            }
        }
        let ghost old_r = r@;
        r.insert(p, m);
        names.insert(p, name);
        proof {
            assert(r@ =~= old_r.take(p as int).push(m) + old_r.skip(p as int));
            assert(v0.take(i + 1).drop_last() =~= v0.take(i as int));
            assert(v0.take(i + 1).last() == m);
            assert forall|k: int| 0 <= k < r@.len() implies (#[trigger] names@[k])@ == module_name_view(r@[k]) by {
                if k < p {
                } else if k > p {
                    assert(r@[k] == old_r[k - 1]);
                }
            }
            assert forall|k: int| 0 <= k < r@.len() implies (#[trigger] r@[k]).props.wf() by {
                if k < p {
                } else if k > p {
                    assert(r@[k] == old_r[k - 1]);
                }
            }
        }
        i = i + 1;
    }
    assert(v0.take(v0.len() as int) =~= v0);
    r
}


/// The modules' text, each followed by an empty line.
pub open spec fn modules_text(ms: Seq<BpModule>) -> Seq<char>
    decreases ms.len(),
{
    if ms.len() == 0 {
        Seq::empty()
    } else {
        modules_text(ms.drop_last()) + module_text(ms.last()) + "\n"@
    }
}

/// The build file of a package: the banner, the kept preamble, the modules in name order and
/// the package's extra text.
pub open spec fn package_text(existing: Option<Seq<char>>, modules: Seq<BpModule>, toplevel: Option<Seq<char>>) -> Seq<char> {
    banner_line_1() + "\n"@ + banner_line_2() + "\n\n"@ + trim(preamble_of(existing)) + "\n"@
        + modules_text(sort_by_name(modules)) + match toplevel {
        Some(t) => t + "\n"@,
        None => Seq::empty(),
    }
}

/// Writes the build file of a package; see `package_text`. `existing` is the earlier build
/// file, if there was one, and `toplevel` the extra text configured for the package.
pub fn render_package(existing: Option<&str>, modules: Vec<BpModule>, toplevel: Option<&str>) -> (r: String)
    requires
        forall|i: int| 0 <= i < modules@.len() ==> (#[trigger] modules@[i]).props.wf(),
    ensures
        r@ == package_text(
            match existing {
                Some(t) => Some(t@),
                None => None,
            },
            modules@,
            match toplevel {
                Some(t) => Some(t@),
                None => None,
            },
        ),
{
    let ghost ms = modules@;
    let mut out = String::new();
    append_str(&mut out, "// Soong build rules for this package, kept up to date by cargo2android.");
    append_str(&mut out, "\n");
    append_str(&mut out, "// Do not modify this file as changes will be overridden on upgrade.");
    append_str(&mut out, "\n\n");
    let pre = license_preamble(existing);
    let pc = chars_of(pre.as_str());
    let trimmed = trim_exec(&pc);
    append_str(&mut out, trimmed.as_str());
    append_str(&mut out, "\n");
    let ghost head = out@;
    let sorted = sort_modules(modules);
    let mut i: usize = 0;
    assert(sorted@.take(0) =~= Seq::<BpModule>::empty());
    while i < sorted.len()
        invariant
            i <= sorted@.len(),
            out@ == head + modules_text(sorted@.take(i as int)),
        decreases sorted.len() - i,
    {
        sorted[i].write(&mut out);
        append_str(&mut out, "\n");
        assert(sorted@.take(i + 1).drop_last() =~= sorted@.take(i as int));
        assert(sorted@.take(i + 1).last() == sorted@[i as int]);
        i = i + 1;
        assert(out@ =~= head + modules_text(sorted@.take(i as int)));
    }
    assert(sorted@.take(sorted@.len() as int) =~= sorted@);
    let ghost body = out@;
    match toplevel {
        Some(t) => {
            append_str(&mut out, t);
            append_str(&mut out, "\n");
        },
        None => {},
    }
    assert(out@ =~= package_text(
        match existing {
            Some(t) => Some(t@),
            None => None,
        },
        ms,
        match toplevel {
            Some(t) => Some(t@),
            None => None,
        },
    ));
    out
}

/// The same earlier file, modules and extra text give the same build file.
pub proof fn lemma_package_text_deterministic(
    e1: Option<Seq<char>>,
    m1: Seq<BpModule>,
    t1: Option<Seq<char>>,
    e2: Option<Seq<char>>,
    m2: Seq<BpModule>,
    t2: Option<Seq<char>>,
)
    requires
        e1 == e2,
        m1 == m2,
        t1 == t2,
    ensures
        package_text(e1, m1, t1) == package_text(e2, m2, t2),
{
}

/// The package whose build script wrote the file at `path`, from a path of the shape
/// `.../build/<PACKAGE>-<HASH>/out/<FILE>`.
pub open spec fn out_package_of(path: Seq<char>) -> Option<Seq<char>> {
    match parent_of(path) {
        Some(out_dir) => match parent_of(out_dir) {
            Some(dir) => {
                let dir_name = file_name_of(dir);
                match last_index(dir_name, '-') {
                    Some(d) => Some(dir_name.subrange(0, d)),
                    None => None,
                }
            },
            None => None,
        },
        None => None,
    }
}

/// The package whose build script wrote a file; see `out_package_of`.
pub fn out_package(path: &str) -> (r: Option<String>)
    ensures
        opt_view(r) == out_package_of(path@),
{
    let out_dir = match crate::crates::parent_dir(path) {
        Some(d) => d,
        None => {
            return None;
        },
    };
    let dir = match crate::crates::parent_dir(out_dir.as_str()) {
        Some(d) => d,
        None => {
            return None;
        },
    };
    let name = crate::decode::file_name_exec(dir.as_str());
    let nc = chars_of(name.as_str());
    match crate::text::find_last(&nc, '-') {
        Some(d) => Some(string_of_range(&nc, 0, d)),
        None => None,
    }
}

/// The name of the rule that provides a package's build script outputs.
pub open spec fn copy_rule_name(package: Seq<char>) -> Seq<char> {
    "copy_"@ + package + "_build_out"@
}

/// The rule that provides the build script outputs `outs` of a package, copied to `out/`.
pub open spec fn copy_rule_props(package: Seq<char>, outs: Seq<Seq<char>>) -> Map<Seq<char>, ValueView> {
    Map::<Seq<char>, ValueView>::empty().insert("name"@, ValueView::Str(copy_rule_name(package))).insert(
        "srcs"@,
        str_list(seq!["out/*"@]),
    ).insert("cmd"@, ValueView::Str("cp $(in) $(genDir)"@)).insert("out"@, str_list(outs))
}

/// The rule that provides a package's build script outputs, and the source reference that
/// every other module of the package gains.
pub fn copy_out_module(package: &str, outs: &Vec<String>) -> (r: (BpModule, String))
    ensures
        r.0.props.wf(),
        module_view(r.0) == ("genrule"@, copy_rule_props(package@, views(outs@)), None::<Seq<char>>),
        r.1@ == ":"@ + copy_rule_name(package@),
{
    let mut m = BpModule::new("genrule".to_string());
    let name = "copy_".to_string().concat(package).concat("_build_out");
    m.props.set("name", BpValue::Str(name.clone()));
    let srcs = vec!["out/*".to_string()];
    assert(views(srcs@) =~= seq!["out/*"@]);
    m.props.set("srcs", str_list_value(&srcs));
    m.props.set("cmd", BpValue::Str("cp $(in) $(genDir)".to_string()));
    m.props.set("out", str_list_value(outs));
    let extra = ":".to_string().concat(name.as_str());
    (m, extra)
}


/// Whether property `k` can move to a shared defaults module: it is not the name, and every
/// module has it, with the value that the first has.
pub open spec fn hoistable(ms: Seq<BpModule>, k: Seq<char>) -> bool {
    k != "name"@ && forall|i: int|
        0 <= i < ms.len() ==> (#[trigger] ms[i].props.view_map()).dom().contains(k) && ms[i].props.view_map()[k]
            == ms[0].props.view_map()[k]
}

/// The properties that move to a shared defaults module.
pub open spec fn hoisted_keys(ms: Seq<BpModule>) -> Set<Seq<char>> {
    Set::new(|k: Seq<char>| hoistable(ms, k))
}

/// Hoisting applies to more than one module, none with `defaults` of its own, that share a
/// property.
pub open spec fn hoisting_applies(ms: Seq<BpModule>) -> bool {
    &&& ms.len() > 1
    &&& forall|i: int| 0 <= i < ms.len() ==> !(#[trigger] ms[i].props.view_map()).dom().contains("defaults"@)
    &&& exists|k: Seq<char>| hoistable(ms, k)
}

/// Whether module `m` holds property `k`.
fn has_prop(m: &BpModule, k: &str) -> (r: bool)
    requires
        m.props.wf(),
    ensures
        r == m.props.view_map().dom().contains(k@),
{
    proof {
        lemma_entries_map(m.props.map@);
    }
    let r = find_last_key(&m.props, k).is_some();
    r
}

/// Whether every module holds property `k` with the value that the first has.
fn shared_prop(ms: &Vec<BpModule>, k: &str) -> (r: bool)
    requires
        ms@.len() > 0,
        forall|i: int| 0 <= i < ms@.len() ==> (#[trigger] ms@[i]).props.wf(),
    ensures
        r == forall|i: int| 0 <= i < ms@.len() ==> (#[trigger] ms@[i].props.view_map()).dom().contains(k@)
            && ms@[i].props.view_map()[k@] == ms@[0].props.view_map()[k@],
{
    let first = &ms[0];
    proof {
        lemma_entries_map(first.props.map@);
    }
    let l0 = match find_last_key(&first.props, k) {
        Some(l) => l,
        None => {
            return false;
        },
    };
    let mut i: usize = 0;
    while i < ms.len()
        invariant
            i <= ms@.len(),
            ms@.len() > 0,
            *first == ms@[0],
            forall|i: int| 0 <= i < ms@.len() ==> (#[trigger] ms@[i]).props.wf(),
            l0 < first.props.map@.len(),
            first.props.view_map()[k@] == value_view(first.props.map@[l0 as int].1),
            forall|j: int| 0 <= j < i ==> (#[trigger] ms@[j].props.view_map()).dom().contains(k@)
                && ms@[j].props.view_map()[k@] == ms@[0].props.view_map()[k@],
        decreases ms.len() - i,
    {
        let m = &ms[i];
        proof {
            lemma_entries_map(m.props.map@);
        }
        match find_last_key(&m.props, k) {
            Some(l) => {
                if !values_equal(&m.props.map[l].1, &first.props.map[l0].1) {
                    assert(m.props.view_map()[k@] == value_view(m.props.map@[l as int].1));
                    assert(!(ms@[i as int].props.view_map().dom().contains(k@) && ms@[i as int].props.view_map()[k@] == ms@[0].props.view_map()[k@]));
                    return false;
                }
            },
            None => {
                assert(!ms@[i as int].props.view_map().dom().contains(k@));
                return false;
            },
        }
        i = i + 1;
    }
    true
}

/// Moves the properties that all modules share into one `rust_defaults` module named
/// `defaults_module_name`, which the modules then name as their `defaults`; see
/// `hoisting_applies` and `hoisted_keys`. The modules are left as they are where hoisting
/// does not apply.
pub fn maybe_add_defaults(defaults_module_name: String, modules: &mut Vec<BpModule>)
    requires
        forall|i: int| 0 <= i < old(modules)@.len() ==> (#[trigger] old(modules)@[i]).props.wf(),
    ensures
        !hoisting_applies(old(modules)@) ==> final(modules)@ == old(modules)@,
        hoisting_applies(old(modules)@) ==> {
            let ms = old(modules)@;
            let h = hoisted_keys(ms);
            &&& final(modules)@.len() == ms.len() + 1
            &&& forall|i: int| 0 <= i < ms.len() ==> {
                &&& (#[trigger] final(modules)@[i]).module_type == ms[i].module_type
                &&& final(modules)@[i].props.raw_block == ms[i].props.raw_block
                &&& final(modules)@[i].props.view_map() == ms[i].props.view_map().remove_keys(h).insert(
                    "defaults"@,
                    str_list(seq![defaults_module_name@]),
                )
            }
            &&& final(modules)@[ms.len() as int].module_type@ == "rust_defaults"@
            &&& final(modules)@[ms.len() as int].props.raw_block is None
            &&& final(modules)@[ms.len() as int].props.view_map() == ms[0].props.view_map().restrict(h).insert(
                "name"@,
                ValueView::Str(defaults_module_name@),
            )
        },
        forall|i: int| 0 <= i < final(modules)@.len() ==> (#[trigger] final(modules)@[i]).props.wf(),
{
    let ghost ms = modules@;
    let n = modules.len();
    if n <= 1 {
        return;
    }
    let mut i: usize = 0;
    while i < n
        invariant
            n == modules@.len(),
            ms == modules@,
            i <= n,
            forall|i: int| 0 <= i < ms.len() ==> (#[trigger] ms[i]).props.wf(),
            forall|j: int| 0 <= j < i ==> !(#[trigger] ms[j].props.view_map()).dom().contains("defaults"@),
        decreases n - i,
    {
        if has_prop(&modules[i], "defaults") {
            return;
        }
        i = i + 1;
    }
    // The names that every module shares, in the order of the first module.
    proof {
        lemma_entries_map(ms[0].props.map@);
    }
    let mut hoisted: Vec<String> = Vec::new();
    let mut k: usize = 0;
    let first_len = modules[0].props.map.len();
    while k < first_len
        invariant
            n == modules@.len(),
            ms == modules@,
            n > 1,
            first_len == ms[0].props.map@.len(),
            k <= first_len,
            forall|i: int| 0 <= i < ms.len() ==> (#[trigger] ms[i]).props.wf(),
            forall|j: int| 0 <= j < hoisted@.len() ==> hoistable(ms, #[trigger] hoisted@[j]@),
            forall|j: int| 0 <= j < k ==> hoistable(ms, #[trigger] ms[0].props.map@[j].0@) ==> views(hoisted@).contains(ms[0].props.map@[j].0@),
            forall|a: int, b: int| 0 <= a < b < hoisted@.len() ==> (#[trigger] hoisted@[a])@ != (#[trigger] hoisted@[b])@,
            forall|j: int| 0 <= j < hoisted@.len() ==> exists|m: int| 0 <= m < k && (#[trigger] hoisted@[j])@ == ms[0].props.map@[m].0@,
        decreases first_len - k,
    {
        let key = modules[0].props.map[k].0.clone();
        if !str_eq(key.as_str(), "name") && shared_prop(modules, key.as_str()) {
            let ghost prev = hoisted@;
            proof {
                assert forall|a: int| 0 <= a < prev.len() implies prev[a]@ != key@ by {
                    let m = choose|m: int| 0 <= m < k && prev[a]@ == ms[0].props.map@[m].0@;
                    crate::bp::lemma_key_before_irreflexive(key@);
                }
            }
            hoisted.push(key);
            assert(views(hoisted@) =~= views(prev).push(ms[0].props.map@[k as int].0@));
            assert forall|j: int| 0 <= j < k + 1 && hoistable(ms, #[trigger] ms[0].props.map@[j].0@) implies views(hoisted@).contains(ms[0].props.map@[j].0@) by {
                if j < k {
                    assert(views(prev).contains(ms[0].props.map@[j].0@));
                    let x = choose|x: int| 0 <= x < views(prev).len() && views(prev)[x] == ms[0].props.map@[j].0@;
                    assert(views(hoisted@)[x] == views(prev)[x]);
                }
                if j == k {
                    assert(views(hoisted@)[prev.len() as int] == ms[0].props.map@[j].0@);
                }
            }
        }
        k = k + 1;
    }
    let ghost h = hoisted_keys(ms);
    proof {
        assert forall|x: Seq<char>| h.contains(x) <==> views(hoisted@).contains(x) by {
            if h.contains(x) {
                assert(ms[0].props.view_map().dom().contains(x));
                let j = choose|j: int| 0 <= j < ms[0].props.map@.len() && #[trigger] ms[0].props.map@[j].0@ == x;
            }
            if views(hoisted@).contains(x) {
                let j = choose|j: int| 0 <= j < views(hoisted@).len() && views(hoisted@)[j] == x;
                assert(hoistable(ms, hoisted@[j]@));
            }
        }
    }
    if hoisted.len() == 0 {
        proof {
            assert forall|x: Seq<char>| !hoistable(ms, x) by {
                if hoistable(ms, x) {
                    assert(h.contains(x));
                }
            }
        }
        return;
    }
    proof {
        assert(h.contains(hoisted@[0]@));
    }
    let mut taken: Vec<BpModule> = Vec::new();
    std::mem::swap(modules, &mut taken);
    let mut rev: Vec<BpModule> = Vec::new();
    while taken.len() > 0
        invariant
            ms.len() == taken@.len() + rev@.len(),
            taken@ == ms.take(taken@.len() as int),
            forall|j: int| 0 <= j < rev@.len() ==> rev@[j] == ms[ms.len() - 1 - j],
        decreases taken@.len(),
    {
        let m = taken.pop().unwrap();
        rev.push(m);
        assert(taken@ =~= ms.take(taken@.len() as int));
    }
    let mut defaults = BpModule::new("rust_defaults".to_string());
    defaults.props.set("name", BpValue::Str(defaults_module_name.clone()));
    let mut out: Vec<BpModule> = Vec::new();
    let dv = vec![defaults_module_name.clone()];
    assert(views(dv@) =~= seq![defaults_module_name@]);
    let mut i: usize = 0;
    while i < n
        invariant
            n == ms.len(),
            n > 1,
            i <= n,
            rev@.len() == n - i,
            forall|j: int| 0 <= j < rev@.len() ==> rev@[j] == ms[ms.len() - 1 - j],
            forall|i: int| 0 <= i < ms.len() ==> (#[trigger] ms[i]).props.wf(),
            forall|x: Seq<char>| h.contains(x) <==> views(hoisted@).contains(x),
            h == hoisted_keys(ms),
            !h.contains("name"@),
            forall|a: int, b: int| 0 <= a < b < hoisted@.len() ==> (#[trigger] hoisted@[a])@ != (#[trigger] hoisted@[b])@,
            forall|j: int| 0 <= j < hoisted@.len() ==> hoistable(ms, #[trigger] hoisted@[j]@),
            views(dv@) == seq![defaults_module_name@],
            defaults.props.wf(),
            defaults.module_type@ == "rust_defaults"@,
            defaults.props.raw_block is None,
            i == 0 ==> defaults.props.view_map() == Map::<Seq<char>, ValueView>::empty().insert("name"@, ValueView::Str(defaults_module_name@)),
            i > 0 ==> defaults.props.view_map() == ms[0].props.view_map().restrict(h).insert("name"@, ValueView::Str(defaults_module_name@)),
            out@.len() == i,
            forall|j: int| 0 <= j < i ==> {
                &&& (#[trigger] out@[j]).module_type == ms[j].module_type
                &&& out@[j].props.raw_block == ms[j].props.raw_block
                &&& out@[j].props.wf()
                &&& out@[j].props.view_map() == ms[j].props.view_map().remove_keys(h).insert(
                    "defaults"@,
                    str_list(seq![defaults_module_name@]),
                )
            },
        decreases n - i,
    {
        let mut m = rev.pop().unwrap();
        assert(m == ms[i as int]);
        let ghost m0 = m.props.view_map();
        let mut t: usize = 0;
        while t < hoisted.len()
            invariant
                t <= hoisted@.len(),
                m.props.wf(),
                m.props.raw_block == ms[i as int].props.raw_block,
                m.module_type == ms[i as int].module_type,
                m0 == ms[i as int].props.view_map(),
                h == hoisted_keys(ms),
                i < ms.len(),
                forall|a: int, b: int| 0 <= a < b < hoisted@.len() ==> (#[trigger] hoisted@[a])@ != (#[trigger] hoisted@[b])@,
                forall|j: int| 0 <= j < hoisted@.len() ==> hoistable(ms, #[trigger] hoisted@[j]@),
                m.props.view_map() == m0.remove_keys(views(hoisted@).take(t as int).to_set()),
                defaults.props.wf(),
                defaults.module_type@ == "rust_defaults"@,
                defaults.props.raw_block is None,
                i == 0 ==> defaults.props.view_map() == Map::<Seq<char>, ValueView>::empty().insert("name"@, ValueView::Str(defaults_module_name@)).union_prefer_right(m0.restrict(views(hoisted@).take(t as int).to_set())),
                i > 0 ==> defaults.props.view_map() == old_defaults_view(ms, h, defaults_module_name@),
            decreases hoisted.len() - t,
        {
            let key = hoisted[t].as_str();
            assert(hoistable(ms, key@));
            assert(ms[i as int].props.view_map().dom().contains(key@));
            assert(!views(hoisted@).take(t as int).contains(key@)) by {
                if views(hoisted@).take(t as int).contains(key@) {
                    let x = choose|x: int| 0 <= x < t && views(hoisted@)[x] == key@;
                    assert(hoisted@[x]@ != hoisted@[t as int]@);
                }
            }
            let removed = m.props.remove(key);
            assert(views(hoisted@).take(t + 1).to_set() =~= views(hoisted@).take(t as int).to_set().insert(key@)) by {
                assert(views(hoisted@).take(t + 1) =~= views(hoisted@).take(t as int) + seq![key@]);
                Seq::<Seq<char>>::lemma_to_set_insert_commutes(views(hoisted@).take(t as int), key@);
            }
            assert(m.props.view_map() =~= m0.remove_keys(views(hoisted@).take(t + 1).to_set()));
            if i == 0 {
                match removed {
                    Some(v) => {
                        defaults.props.set(key, v);
                        assert(defaults.props.view_map() =~= Map::<Seq<char>, ValueView>::empty().insert("name"@, ValueView::Str(defaults_module_name@)).union_prefer_right(m0.restrict(views(hoisted@).take(t + 1).to_set())));
                    },
                    None => {},
                }
            }
            t = t + 1;
        }
        assert(views(hoisted@).take(hoisted@.len() as int) =~= views(hoisted@));
        assert(views(hoisted@).to_set() =~= h);
        m.props.set("defaults", crate::synth::str_list_value(&dv));
        proof {
            if i == 0 {
                assert(defaults.props.view_map() =~= ms[0].props.view_map().restrict(h).insert("name"@, ValueView::Str(defaults_module_name@)));
            }
        }
        out.push(m);
        i = i + 1;
    }
    out.push(defaults);
    std::mem::swap(modules, &mut out);
}

/// What the defaults module's properties are once the first module has been read.
pub open spec fn old_defaults_view(ms: Seq<BpModule>, h: Set<Seq<char>>, name: Seq<char>) -> Map<Seq<char>, ValueView> {
    ms[0].props.view_map().restrict(h).insert("name"@, ValueView::Str(name))
}

} // verus!
