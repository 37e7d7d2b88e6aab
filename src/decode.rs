//! Decoding one compiler command line into the fields of the crate it builds.
use vstd::prelude::*;
use crate::text::{
    chars_of, contains_str, find_first, find_last, first_index, has_prefix, has_suffix,
    last_index, str_eq, str_starts_with, string_of, string_of_range, strip_prefix, strip_suffix,
    views,
};

verus! {

broadcast use vstd::string::group_string_axioms;

/// Whether `c` is white space, as Unicode's White_Space property has it.
pub open spec fn is_ws(c: char) -> bool {
    c == '\t' || c == '\n' || c == '\x0B' || c == '\x0C' || c == '\r' || c == ' '
        || c == '\u{85}' || c == '\u{A0}' || c == '\u{1680}'
        || ('\u{2000}' as u32 <= c as u32 && c as u32 <= '\u{200A}' as u32)
        || c == '\u{2028}' || c == '\u{2029}' || c == '\u{202F}' || c == '\u{205F}'
        || c == '\u{3000}'
}

pub fn is_ws_exec(c: char) -> (r: bool)
    ensures
        r == is_ws(c),
{
    c == '\t' || c == '\n' || c == '\x0B' || c == '\x0C' || c == '\r' || c == ' '
        || c == '\u{85}' || c == '\u{A0}' || c == '\u{1680}'
        || ('\u{2000}' as u32 <= c as u32 && c as u32 <= '\u{200A}' as u32)
        || c == '\u{2028}' || c == '\u{2029}' || c == '\u{202F}' || c == '\u{205F}'
        || c == '\u{3000}'
}

/// The maximal runs of non-white-space characters of `s`, in order.
pub open spec fn tokens_of(s: Seq<char>) -> Seq<Seq<char>>
    decreases s.len(),
{
    if s.len() == 0 {
        Seq::empty()
    } else {
        let prev = tokens_of(s.drop_last());
        let c = s.last();
        if is_ws(c) {
            prev
        } else if s.len() >= 2 && !is_ws(s[s.len() - 2]) && prev.len() > 0 {
            prev.update(prev.len() - 1, prev.last().push(c))
        } else {
            prev.push(seq![c])
        }
    }
}

proof fn lemma_tokens_nonempty(s: Seq<char>)
    requires
        s.len() > 0,
        !is_ws(s.last()),
    ensures
        tokens_of(s).len() > 0,
{
}

/// Splits `s` at white space, dropping the white space.
pub fn split_whitespace(s: &str) -> (r: Vec<Vec<char>>)
    ensures
        r@.map_values(|t: Vec<char>| t@) == tokens_of(s@),
{
    let cs = chars_of(s);
    let mut toks: Vec<Vec<char>> = Vec::new();
    let mut i: usize = 0;
    while i < cs.len()
        invariant
            i <= cs@.len(),
            cs@ == s@,
            toks@.map_values(|t: Vec<char>| t@) == tokens_of(cs@.take(i as int)),
        decreases cs.len() - i,
    {
        let c = cs[i];
        let ghost pre = cs@.take(i as int);
        assert(cs@.take(i + 1).drop_last() =~= pre);
        if is_ws_exec(c) {
        } else if i >= 1 && !is_ws_exec(cs[i - 1]) {
            proof {
                assert(pre.last() == cs@[i - 1]);
                lemma_tokens_nonempty(pre);
            }
            let last = toks.len() - 1;
            let mut t = toks.remove(last);
            t.push(c);
            toks.push(t);
        } else {
            let mut t: Vec<char> = Vec::new();
            t.push(c);
            toks.push(t);
        }
        i = i + 1;
        assert(toks@.map_values(|t: Vec<char>| t@) =~= tokens_of(cs@.take(i as int)));
    }
    assert(cs@.take(cs@.len() as int) =~= cs@);
    toks
}


/// A token with one pair of matching outer quotes removed; `None` for a lone quote, which is
/// what is left of a quoted argument that held white space.
pub open spec fn unquote(t: Seq<char>) -> Option<Seq<char>> {
    if t.len() == 1 && (t[0] == '"' || t[0] == '\'') {
        None
    } else if t.len() >= 2 && ((t[0] == '"' && t.last() == '"') || (t[0] == '\'' && t.last() == '\'')) {
        Some(t.subrange(1, t.len() - 1))
    } else {
        Some(t)
    }
}

/// The tokens of a command line with quotes removed, or `None` if one cannot be.
pub open spec fn args_of(s: Seq<char>) -> Option<Seq<Seq<char>>> {
    if forall|i: int| 0 <= i < tokens_of(s).len() ==> (#[trigger] unquote(tokens_of(s)[i])) is Some {
        Some(tokens_of(s).map_values(|t: Seq<char>| unquote(t)->0))
    } else {
        None
    }
}

/// Splits a command line into its arguments, removing one pair of outer quotes from each;
/// `None` where a lone quote shows an argument that held white space.
pub fn split_args(s: &str) -> (r: Option<Vec<String>>)
    ensures
        r matches Some(v) ==> args_of(s@) == Some(views(v@)),
        r is None ==> args_of(s@) is None,
{
    let toks = split_whitespace(s);
    let ghost tv = toks@.map_values(|t: Vec<char>| t@);
    let mut out: Vec<String> = Vec::new();
    let mut i: usize = 0;
    while i < toks.len()
        invariant
            i <= toks@.len(),
            tv == toks@.map_values(|t: Vec<char>| t@),
            tv == tokens_of(s@),
            forall|k: int| 0 <= k < i ==> (#[trigger] unquote(tv[k])) is Some,
            views(out@) == tv.take(i as int).map_values(|t: Seq<char>| unquote(t)->0),
        decreases toks.len() - i,
    {
        let t = &toks[i];
        let n = t.len();
        assert(t@ == tv[i as int]);
        let q = n >= 1 && (t[0] == '"' || t[0] == '\'');
        if n == 1 && q {
            return None;
        }
        let u = if n >= 2 && ((t[0] == '"' && t[n - 1] == '"') || (t[0] == '\'' && t[n - 1] == '\'')) {
            string_of_range(t, 1, n - 1)
        } else {
            string_of(t)
        };
        assert(unquote(tv[i as int]) == Some(u@));
        let ghost prev_out = views(out@);
        out.push(u);
        assert(views(out@) =~= prev_out.push(u@));
        assert(tv.take(i + 1) =~= tv.take(i as int).push(tv[i as int]));
        assert(tv.take(i + 1).map_values(|t: Seq<char>| unquote(t)->0) =~= tv.take(i as int).map_values(|t: Seq<char>| unquote(t)->0).push(u@));
        i = i + 1;
        assert(views(out@) =~= tv.take(i as int).map_values(|t: Seq<char>| unquote(t)->0));
    }
    assert(tv.take(tv.len() as int) =~= tv);
    assert(views(out@) =~= tokens_of(s@).map_values(|t: Seq<char>| unquote(t)->0));
    Some(out)
}


/// What a command line says of the crate it builds.
pub struct Invocation {
    pub name: String,
    pub types: Vec<String>,
    pub test: bool,
    pub target: Option<String>,
    pub features: Vec<String>,
    pub cfgs: Vec<String>,
    pub externs: Vec<(String, Option<String>)>,
    pub codegens: Vec<String>,
    pub cap_lints: String,
    pub static_libs: Vec<String>,
    pub shared_libs: Vec<String>,
    pub emit_list: String,
    pub src: Option<String>,
}

/// The model of an `Invocation`: its fields as sequences of characters.
pub struct InvocationView {
    pub name: Seq<char>,
    pub types: Seq<Seq<char>>,
    pub test: bool,
    pub target: Option<Seq<char>>,
    pub features: Seq<Seq<char>>,
    pub cfgs: Seq<Seq<char>>,
    pub externs: Seq<(Seq<char>, Option<Seq<char>>)>,
    pub codegens: Seq<Seq<char>>,
    pub cap_lints: Seq<char>,
    pub static_libs: Seq<Seq<char>>,
    pub shared_libs: Seq<Seq<char>>,
    pub emit_list: Seq<char>,
    pub src: Option<Seq<char>>,
}

pub open spec fn opt_view(o: Option<String>) -> Option<Seq<char>> {
    match o {
        Some(s) => Some(s@),
        None => None,
    }
}

pub open spec fn extern_views(v: Seq<(String, Option<String>)>) -> Seq<(Seq<char>, Option<Seq<char>>)> {
    v.map_values(|e: (String, Option<String>)| (e.0@, opt_view(e.1)))
}

impl View for Invocation {
    type V = InvocationView;

    open spec fn view(&self) -> InvocationView {
        InvocationView {
            name: self.name@,
            types: views(self.types@),
            test: self.test,
            target: opt_view(self.target),
            features: views(self.features@),
            cfgs: views(self.cfgs@),
            externs: extern_views(self.externs@),
            codegens: views(self.codegens@),
            cap_lints: self.cap_lints@,
            static_libs: views(self.static_libs@),
            shared_libs: views(self.shared_libs@),
            emit_list: self.emit_list@,
            src: opt_view(self.src),
        }
    }
}

/// Why a command line could not be decoded.
#[derive(Debug)]
pub enum DecodeError {
    /// A quoted argument held white space.
    QuotedWhitespace,
    /// A flag that takes a value came last.
    MissingValue(String),
    UnsupportedArgument(String),
    MissingCrateName,
    MissingMainSource,
    /// Either both or neither of a crate type and the test flag were given.
    TypeAndTest,
    LibAndRlib,
    UnknownCrateType,
    /// No directory above the main source file holds a manifest.
    NoManifest(String),
}

/// The model of a `DecodeError`.
pub enum DecodeFailure {
    QuotedWhitespace,
    MissingValue(Seq<char>),
    UnsupportedArgument(Seq<char>),
    MissingCrateName,
    MissingMainSource,
    TypeAndTest,
    LibAndRlib,
    UnknownCrateType,
    NoManifest(Seq<char>),
}

impl View for DecodeError {
    type V = DecodeFailure;

    open spec fn view(&self) -> DecodeFailure {
        match self {
            DecodeError::QuotedWhitespace => DecodeFailure::QuotedWhitespace,
            DecodeError::MissingValue(s) => DecodeFailure::MissingValue(s@),
            DecodeError::UnsupportedArgument(s) => DecodeFailure::UnsupportedArgument(s@),
            DecodeError::MissingCrateName => DecodeFailure::MissingCrateName,
            DecodeError::MissingMainSource => DecodeFailure::MissingMainSource,
            DecodeError::TypeAndTest => DecodeFailure::TypeAndTest,
            DecodeError::LibAndRlib => DecodeFailure::LibAndRlib,
            DecodeError::UnknownCrateType => DecodeFailure::UnknownCrateType,
            DecodeError::NoManifest(s) => DecodeFailure::NoManifest(s@),
        }
    }
}

pub open spec fn empty_invocation() -> InvocationView {
    InvocationView {
        name: Seq::empty(),
        types: Seq::empty(),
        test: false,
        target: None,
        features: Seq::empty(),
        cfgs: Seq::empty(),
        externs: Seq::empty(),
        codegens: Seq::empty(),
        cap_lints: Seq::empty(),
        static_libs: Seq::empty(),
        shared_libs: Seq::empty(),
        emit_list: Seq::empty(),
        src: None,
    }
}

/// The flags that take the next argument as their value.
pub open spec fn takes_value(t: Seq<char>) -> bool {
    t == "--crate-name"@ || t == "--crate-type"@ || t == "--target"@ || t == "--cfg"@
        || t == "--extern"@ || t == "-C"@ || t == "--cap-lints"@ || t == "-L"@ || t == "-l"@
        || t == "--out-dir"@ || t == "--color"@
}

/// `s` without its first `n` characters.
pub open spec fn drop_chars(s: Seq<char>, n: int) -> Seq<char> {
    s.subrange(n, s.len() as int)
}

/// Whether a code-generation option is kept: those that the target build system sets itself
/// are dropped.
pub open spec fn codegen_kept(v: Seq<char>) -> bool {
    !has_prefix(v, "codegen-units="@) && !has_prefix(v, "debuginfo="@) && !has_prefix(
        v,
        "embed-bitcode="@,
    ) && !has_prefix(v, "extra-filename="@) && !has_prefix(v, "incremental="@) && !has_prefix(
        v,
        "metadata="@,
    ) && v != "prefer-dynamic"@
}

/// The feature that a `--cfg` predicate enables, if it has the shape `feature="NAME"`.
pub open spec fn feature_of(v: Seq<char>) -> Option<Seq<char>> {
    let rest = drop_chars(v, "feature=\""@.len() as int);
    if has_prefix(v, "feature=\""@) && has_suffix(rest, "\""@) {
        Some(rest.subrange(0, rest.len() - "\""@.len()))
    } else {
        None
    }
}

/// The last component of a path.
pub open spec fn file_name_of(p: Seq<char>) -> Seq<char> {
    match last_index(p, '/') {
        Some(j) => drop_chars(p, j + 1),
        None => p,
    }
}

/// An `--extern` value: `NAME` alone, or `NAME=PATH` with the file name of `PATH`.
pub open spec fn extern_of(v: Seq<char>) -> (Seq<char>, Option<Seq<char>>) {
    match first_index(v, '=') {
        Some(k) => (v.subrange(0, k), Some(file_name_of(drop_chars(v, k + 1)))),
        None => (v, None),
    }
}

/// Whether a token is ignored on its own.
pub open spec fn ignored_flag(t: Seq<char>) -> bool {
    has_prefix(t, "--error-format="@) || has_prefix(t, "--edition="@) || has_prefix(t, "--json="@)
        || has_prefix(t, "-Aclippy"@) || has_prefix(t, "-Wclippy"@) || t == "-W"@ || t == "-D"@
}

/// One step of decoding: the argument at `i` (and its value, for flags that take one) applied
/// to `st`, with the index of the next argument.
pub open spec fn step(a: Seq<Seq<char>>, i: int, st: InvocationView) -> Result<(int, InvocationView), DecodeFailure>
    recommends
        0 <= i < a.len(),
{
    let t = a[i];
    let v = a[i + 1];
    if takes_value(t) && i + 1 >= a.len() {
        Err(DecodeFailure::MissingValue(t))
    } else if t == "--crate-name"@ {
        Ok((i + 2, InvocationView { name: v, ..st }))
    } else if t == "--crate-type"@ {
        Ok((i + 2, InvocationView { types: st.types.push(v), ..st }))
    } else if t == "--test"@ {
        Ok((i + 1, InvocationView { test: true, ..st }))
    } else if t == "--target"@ {
        Ok((i + 2, InvocationView { target: Some(v), ..st }))
    } else if t == "--cfg"@ {
        match feature_of(v) {
            Some(f) => if st.features.contains(f) {
                Ok((i + 2, st))
            } else {
                Ok((i + 2, InvocationView { features: st.features.push(f), ..st }))
            },
            None => Ok((i + 2, InvocationView { cfgs: st.cfgs.push(v), ..st })),
        }
    } else if t == "--extern"@ {
        Ok((i + 2, InvocationView { externs: st.externs.push(extern_of(v)), ..st }))
    } else if has_prefix(t, "-C"@) {
        let (next, opt) = if t == "-C"@ { (i + 2, v) } else { (i + 1, drop_chars(t, "-C"@.len() as int)) };
        if codegen_kept(opt) {
            Ok((next, InvocationView { codegens: st.codegens.push(opt), ..st }))
        } else {
            Ok((next, st))
        }
    } else if t == "--cap-lints"@ {
        Ok((i + 2, InvocationView { cap_lints: v, ..st }))
    } else if t == "-L"@ {
        Ok((i + 2, st))
    } else if t == "-l"@ {
        if has_prefix(v, "static="@) {
            Ok((i + 2, InvocationView { static_libs: st.static_libs.push(drop_chars(v, "static="@.len() as int)), ..st }))
        } else if has_prefix(v, "dylib="@) {
            Ok((i + 2, InvocationView { shared_libs: st.shared_libs.push(drop_chars(v, "dylib="@.len() as int)), ..st }))
        } else {
            Ok((i + 2, InvocationView { shared_libs: st.shared_libs.push(v), ..st }))
        }
    } else if has_prefix(t, "--emit="@) {
        Ok((i + 1, InvocationView { emit_list: drop_chars(t, "--emit="@.len() as int), ..st }))
    } else if !has_prefix(t, "-"@) {
        Ok((i + 1, InvocationView { src: Some(t), ..st }))
    } else if t == "--out-dir"@ || t == "--color"@ {
        Ok((i + 2, st))
    } else if ignored_flag(t) {
        Ok((i + 1, st))
    } else {
        Err(DecodeFailure::UnsupportedArgument(t))
    }
}

/// Applies the arguments from `i` on to `st`.
pub open spec fn decode_from(a: Seq<Seq<char>>, i: int, st: InvocationView) -> Result<InvocationView, DecodeFailure>
    decreases a.len() - i,
{
    if i < 0 || i >= a.len() {
        Ok(st)
    } else {
        match step(a, i, st) {
            Ok((j, st2)) => if j > i { decode_from(a, j, st2) } else { Ok(st2) },
            Err(e) => Err(e),
        }
    }
}

/// The crate types that a compiler accepts.
pub open spec fn is_crate_type(t: Seq<char>) -> bool {
    t == "bin"@ || t == "lib"@ || t == "rlib"@ || t == "dylib"@ || t == "cdylib"@ || t
        == "staticlib"@ || t == "proc-macro"@
}

/// The checks that a decoded command line must pass, in order.
pub open spec fn check_decoded(st: InvocationView) -> Result<InvocationView, DecodeFailure> {
    if st.name.len() == 0 {
        Err(DecodeFailure::MissingCrateName)
    } else if st.src is None || st.src->0.len() == 0 {
        Err(DecodeFailure::MissingMainSource)
    } else if (st.types.len() > 0) == st.test {
        Err(DecodeFailure::TypeAndTest)
    } else if st.types.contains("lib"@) && st.types.contains("rlib"@) {
        Err(DecodeFailure::LibAndRlib)
    } else if exists|k: int| 0 <= k < st.types.len() && !is_crate_type(#[trigger] st.types[k]) {
        Err(DecodeFailure::UnknownCrateType)
    } else {
        Ok(st)
    }
}

/// What a command line decodes to.
pub open spec fn decode_spec(s: Seq<char>) -> Result<InvocationView, DecodeFailure> {
    match args_of(s) {
        None => Err(DecodeFailure::QuotedWhitespace),
        Some(a) => match decode_from(a, 0, empty_invocation()) {
            Ok(st) => check_decoded(st),
            Err(e) => Err(e),
        },
    }
}

/// A decoded crate: it has a name and a main source, exactly one of crate types and the test
/// flag, known crate types, and not both `lib` and `rlib`.
pub open spec fn decoded_wf(st: InvocationView) -> bool {
    &&& st.name.len() > 0
    &&& st.src is Some && st.src->0.len() > 0
    &&& (st.types.len() > 0) != st.test
    &&& !(st.types.contains("lib"@) && st.types.contains("rlib"@))
    &&& forall|k: int| 0 <= k < st.types.len() ==> is_crate_type(#[trigger] st.types[k])
}

/// Every command line either decodes to a well-formed crate or fails with a stated error.
pub proof fn lemma_decoder_totality(s: Seq<char>)
    ensures
        decode_spec(s) matches Ok(c) ==> decoded_wf(c),
{
    match args_of(s) {
        Some(a) => match decode_from(a, 0, empty_invocation()) {
            Ok(st) => lemma_check_decoded_wf(st),
            Err(_) => {},
        },
        None => {},
    }
}

pub proof fn lemma_check_decoded_wf(st: InvocationView)
    ensures
        check_decoded(st) matches Ok(c) ==> c == st && decoded_wf(st),
{
}


fn push_view(v: &mut Vec<String>, s: String)
    ensures
        views(final(v)@) == views(old(v)@).push(s@),
{
    v.push(s);
    assert(views(v@) =~= views(old(v)@).push(s@));
}

pub fn takes_value_exec(t: &str) -> (r: bool)
    ensures
        r == takes_value(t@),
{
    str_eq(t, "--crate-name") || str_eq(t, "--crate-type") || str_eq(t, "--target") || str_eq(
        t,
        "--cfg",
    ) || str_eq(t, "--extern") || str_eq(t, "-C") || str_eq(t, "--cap-lints") || str_eq(t, "-L")
        || str_eq(t, "-l") || str_eq(t, "--out-dir") || str_eq(t, "--color")
}

pub fn codegen_kept_exec(v: &str) -> (r: bool)
    ensures
        r == codegen_kept(v@),
{
    !str_starts_with(v, "codegen-units=") && !str_starts_with(v, "debuginfo=")
        && !str_starts_with(v, "embed-bitcode=") && !str_starts_with(v, "extra-filename=")
        && !str_starts_with(v, "incremental=") && !str_starts_with(v, "metadata=") && !str_eq(
        v,
        "prefer-dynamic",
    )
}

pub fn feature_of_exec(v: &str) -> (r: Option<String>)
    ensures
        opt_view(r) == feature_of(v@),
{
    match strip_prefix(v, "feature=\"") {
        Some(rest) => match strip_suffix(rest.as_str(), "\"") {
            Some(f) => Some(f),
            None => None,
        },
        None => None,
    }
}

pub fn file_name_exec(p: &str) -> (r: String)
    ensures
        r@ == file_name_of(p@),
{
    let cs = chars_of(p);
    match find_last(&cs, '/') {
        Some(j) => string_of_range(&cs, j + 1, cs.len()),
        None => p.to_string(),
    }
}

pub fn extern_of_exec(v: &str) -> (r: (String, Option<String>))
    ensures
        (r.0@, opt_view(r.1)) == extern_of(v@),
{
    let cs = chars_of(v);
    match find_first(&cs, '=') {
        Some(k) => {
            let name = string_of_range(&cs, 0, k);
            let path = string_of_range(&cs, k + 1, cs.len());
            (name, Some(file_name_exec(path.as_str())))
        },
        None => (v.to_string(), None),
    }
}

pub fn ignored_flag_exec(t: &str) -> (r: bool)
    ensures
        r == ignored_flag(t@),
{
    str_starts_with(t, "--error-format=") || str_starts_with(t, "--edition=") || str_starts_with(
        t,
        "--json=",
    ) || str_starts_with(t, "-Aclippy") || str_starts_with(t, "-Wclippy") || str_eq(t, "-W")
        || str_eq(t, "-D")
}

/// Applies the argument at `i` to `st`; returns the index of the next argument.
pub fn step_exec(a: &Vec<String>, i: usize, st: &mut Invocation) -> (r: Result<usize, DecodeError>)
    requires
        i < a.len(),
    ensures
        match step(views(a@), i as int, old(st)@) {
            Ok((j, st2)) => r == Ok::<usize, DecodeError>(j as usize) && final(st)@ == st2 && i < j <= a@.len(),
            Err(e) => r matches Err(x) && x@ == e,
        },
{
    let ghost av = views(a@);
    assert(av[i as int] == a@[i as int]@);
    let t = a[i].as_str();
    let has_next = i + 1 < a.len();
    if takes_value_exec(t) && !has_next {
        return Err(DecodeError::MissingValue(t.to_string()));
    }
    let v: String = if has_next { a[i + 1].clone() } else { String::new() };
    assert(has_next ==> v@ == av[i + 1]);
    if str_eq(t, "--crate-name") {
        st.name = v;
        Ok(i + 2)
    } else if str_eq(t, "--crate-type") {
        push_view(&mut st.types, v);
        Ok(i + 2)
    } else if str_eq(t, "--test") {
        st.test = true;
        Ok(i + 1)
    } else if str_eq(t, "--target") {
        st.target = Some(v);
        Ok(i + 2)
    } else if str_eq(t, "--cfg") {
        match feature_of_exec(v.as_str()) {
            Some(f) => {
                if !contains_str(&st.features, f.as_str()) {
                    push_view(&mut st.features, f);
                }
            },
            None => {
                push_view(&mut st.cfgs, v);
            },
        }
        Ok(i + 2)
    } else if str_eq(t, "--extern") {
        let e = extern_of_exec(v.as_str());
        st.externs.push(e);
        assert(extern_views(st.externs@) =~= extern_views(old(st).externs@).push(extern_of(v@)));
        Ok(i + 2)
    } else if str_starts_with(t, "-C") {
        let is_split = str_eq(t, "-C");
        let opt = if is_split {
            v
        } else {
            match strip_prefix(t, "-C") {
                Some(o) => o,
                None => String::new(),
            }
        };
        if codegen_kept_exec(opt.as_str()) {
            push_view(&mut st.codegens, opt);
        }
        if is_split { Ok(i + 2) } else { Ok(i + 1) }
    } else if str_eq(t, "--cap-lints") {
        st.cap_lints = v;
        Ok(i + 2)
    } else if str_eq(t, "-L") {
        Ok(i + 2)
    } else if str_eq(t, "-l") {
        match strip_prefix(v.as_str(), "static=") {
            Some(lib) => {
                push_view(&mut st.static_libs, lib);
            },
            None => match strip_prefix(v.as_str(), "dylib=") {
                Some(lib) => {
                    push_view(&mut st.shared_libs, lib);
                },
                None => {
                    push_view(&mut st.shared_libs, v);
                },
            },
        }
        Ok(i + 2)
    } else if str_starts_with(t, "--emit=") {
        match strip_prefix(t, "--emit=") {
            Some(e) => {
                st.emit_list = e;
            },
            None => {},
        }
        Ok(i + 1)
    } else if !str_starts_with(t, "-") {
        st.src = Some(t.to_string());
        Ok(i + 1)
    } else if str_eq(t, "--out-dir") || str_eq(t, "--color") {
        Ok(i + 2)
    } else if ignored_flag_exec(t) {
        Ok(i + 1)
    } else {
        Err(DecodeError::UnsupportedArgument(t.to_string()))
    }
}


pub fn is_crate_type_exec(t: &str) -> (r: bool)
    ensures
        r == is_crate_type(t@),
{
    str_eq(t, "bin") || str_eq(t, "lib") || str_eq(t, "rlib") || str_eq(t, "dylib") || str_eq(
        t,
        "cdylib",
    ) || str_eq(t, "staticlib") || str_eq(t, "proc-macro")
}

impl Invocation {
    pub fn empty() -> (r: Invocation)
        ensures
            r@ == empty_invocation(),
    {
        let r = Invocation {
            name: String::new(),
            types: Vec::new(),
            test: false,
            target: None,
            features: Vec::new(),
            cfgs: Vec::new(),
            externs: Vec::new(),
            codegens: Vec::new(),
            cap_lints: String::new(),
            static_libs: Vec::new(),
            shared_libs: Vec::new(),
            emit_list: String::new(),
            src: None,
        };
        assert(r@.types =~= Seq::empty());
        assert(r@.features =~= Seq::empty());
        assert(r@.cfgs =~= Seq::empty());
        assert(r@.externs =~= Seq::empty());
        assert(r@.codegens =~= Seq::empty());
        assert(r@.static_libs =~= Seq::empty());
        assert(r@.shared_libs =~= Seq::empty());
        r
    }
}

/// Runs the checks of `check_decoded`.
pub fn check_decoded_exec(st: Invocation) -> (r: Result<Invocation, DecodeError>)
    ensures
        match check_decoded(st@) {
            Ok(c) => r matches Ok(x) && x@ == c,
            Err(e) => r matches Err(x) && x@ == e,
        },
{
    if st.name.as_str().is_empty() {
        return Err(DecodeError::MissingCrateName);
    }
    let src_empty = match &st.src {
        Some(s) => s.as_str().is_empty(),
        None => true,
    };
    if src_empty {
        return Err(DecodeError::MissingMainSource);
    }
    if (st.types.len() > 0) == st.test {
        return Err(DecodeError::TypeAndTest);
    }
    if contains_str(&st.types, "lib") && contains_str(&st.types, "rlib") {
        return Err(DecodeError::LibAndRlib);
    }
    let mut k: usize = 0;
    while k < st.types.len()
        invariant
            k <= st.types@.len(),
            st@.name.len() > 0,
            !(st@.src is None || st@.src->0.len() == 0),
            (st@.types.len() > 0) != st@.test,
            !(st@.types.contains("lib"@) && st@.types.contains("rlib"@)),
            forall|m: int| 0 <= m < k ==> is_crate_type(#[trigger] views(st.types@)[m]),
        decreases st.types.len() - k,
    {
        if !is_crate_type_exec(st.types[k].as_str()) {
            assert(!is_crate_type(views(st.types@)[k as int]));
            return Err(DecodeError::UnknownCrateType);
        }
        k = k + 1;
    }
    Ok(st)
}

/// Decodes one compiler command line (its arguments after the compiler's name).
pub fn decode_invocation(rustc: &str) -> (r: Result<Invocation, DecodeError>)
    ensures
        match decode_spec(rustc@) {
            Ok(c) => r matches Ok(x) && x@ == c,
            Err(e) => r matches Err(x) && x@ == e,
        },
        r matches Ok(x) ==> decoded_wf(x@),
{
    let args = match split_args(rustc) {
        None => {
            return Err(DecodeError::QuotedWhitespace);
        },
        Some(a) => a,
    };
    let ghost av = views(args@);
    let mut st = Invocation::empty();
    let mut i: usize = 0;
    while i < args.len()
        invariant
            av == views(args@),
            args_of(rustc@) == Some(av),
            i <= args@.len(),
            decode_from(av, 0, empty_invocation()) == decode_from(av, i as int, st@),
        decreases args.len() - i,
    {
        let ghost pre = st@;
        match step_exec(&args, i, &mut st) {
            Ok(j) => {
                i = j;
            },
            Err(e) => {
                assert(decode_from(av, i as int, pre) == Err::<InvocationView, DecodeFailure>(e@));
                assert(args_of(rustc@) == Some(av));
                assert(decode_spec(rustc@) == Err::<InvocationView, DecodeFailure>(e@));
                return Err(e);
            },
        }
    }
    proof {
        lemma_check_decoded_wf(st@);
    }
    check_decoded_exec(st)
}

} // verus!
