//! Reading a build transcript: the compiler invocations and the diagnostics it records.
use vstd::prelude::*;
use crate::decode::drop_chars;
use crate::text::{
    chars_of, find_first, first_index, has_prefix, has_suffix, occurs_at, occurs_at_exec, starts_with,
    ends_with, string_of, string_of_range, views,
};

verus! {

broadcast use vstd::string::group_string_axioms;

/// The pieces of `s` between line feeds; the last piece is what follows the last line feed.
pub open spec fn pieces(s: Seq<char>) -> Seq<Seq<char>>
    decreases s.len(),
{
    if s.len() == 0 {
        seq![Seq::empty()]
    } else {
        let prev = pieces(s.drop_last());
        if s.last() == '\n' {
            prev.push(Seq::empty())
        } else {
            prev.update(prev.len() - 1, prev.last().push(s.last()))
        }
    }
}

proof fn lemma_pieces_nonempty(s: Seq<char>)
    ensures
        pieces(s).len() >= 1,
    decreases s.len(),
{
    if s.len() > 0 {
        lemma_pieces_nonempty(s.drop_last());
    }
}

/// A line ended by a line feed, without a carriage return before the feed.
pub open spec fn strip_cr(l: Seq<char>) -> Seq<char> {
    if l.len() > 0 && l.last() == '\r' {
        l.drop_last()
    } else {
        l
    }
}

/// The lines of `s`: ended by a line feed or a carriage return and line feed; the last line
/// needs no ending, and an empty text after the last feed is no line.
pub open spec fn lines_of(s: Seq<char>) -> Seq<Seq<char>> {
    let p = pieces(s);
    p.take(p.len() - 1).map_values(|l: Seq<char>| strip_cr(l)) + if p.last().len() > 0 {
        seq![p.last()]
    } else {
        Seq::empty()
    }
}

/// Splits a text into its lines; see `lines_of`.
pub fn split_lines(s: &str) -> (r: Vec<Vec<char>>)
    ensures
        r@.map_values(|l: Vec<char>| l@) == lines_of(s@),
{
    let cs = chars_of(s);
    let mut lines: Vec<Vec<char>> = Vec::new();
    let mut cur: Vec<char> = Vec::new();
    let mut i: usize = 0;
    proof {
        lemma_pieces_nonempty(cs@.take(0));
        assert(cs@.take(0) =~= Seq::<char>::empty());
    }
    while i < cs.len()
        invariant
            i <= cs@.len(),
            cs@ == s@,
            pieces(cs@.take(i as int)).len() >= 1,
            lines@.map_values(|l: Vec<char>| l@) == pieces(cs@.take(i as int)).take(
                pieces(cs@.take(i as int)).len() - 1,
            ).map_values(|l: Seq<char>| strip_cr(l)),
            cur@ == pieces(cs@.take(i as int)).last(),
        decreases cs.len() - i,
    {
        let ghost p = pieces(cs@.take(i as int));
        let c = cs[i];
        assert(cs@.take(i + 1).drop_last() =~= cs@.take(i as int));
        assert(cs@.take(i + 1).last() == c);
        if c == '\n' {
            let n = cur.len();
            let l = if n > 0 && cur[n - 1] == '\r' {
                let mut t = cur.clone();
                t.pop();
                t
            } else {
                cur.clone()
            };
            assert(l@ == strip_cr(cur@)) by {
                if n > 0 && cur@[n - 1] == '\r' {
                    assert(l@ =~= cur@.drop_last());
                }
            }
            let ghost prev = lines@.map_values(|l: Vec<char>| l@);
            lines.push(l);
            assert(lines@.map_values(|l: Vec<char>| l@) =~= prev.push(strip_cr(p.last())));
            cur = Vec::new();
            let ghost next_pieces = pieces(cs@.take(i + 1));
            assert(next_pieces == p.push(Seq::empty()));
            assert(next_pieces.take(next_pieces.len() - 1) =~= p.take(p.len() - 1).push(p.last()));
            assert(next_pieces.take(next_pieces.len() - 1).map_values(|l: Seq<char>| strip_cr(l)) =~= p.take(p.len() - 1).map_values(|l: Seq<char>| strip_cr(l)).push(strip_cr(p.last())));
        } else {
            cur.push(c);
            let ghost next_pieces = pieces(cs@.take(i + 1));
            assert(next_pieces == p.update(p.len() - 1, p.last().push(c)));
            assert(next_pieces.take(next_pieces.len() - 1) =~= p.take(p.len() - 1));
        }
        i = i + 1;
    }
    assert(cs@.take(cs@.len() as int) =~= cs@);
    if cur.len() > 0 {
        let ghost prev = lines@.map_values(|l: Vec<char>| l@);
        lines.push(cur);
        assert(lines@.map_values(|l: Vec<char>| l@) =~= prev + seq![pieces(s@).last()]);
    } else {
        assert(lines@.map_values(|l: Vec<char>| l@) =~= lines_of(s@));
    }
    lines
}


/// `k` is the number of spaces that `l` starts with.
pub open spec fn is_lead(l: Seq<char>, k: int) -> bool {
    0 <= k <= l.len() && (forall|i: int| 0 <= i < k ==> l[i] == ' ') && (k == l.len() || l[k] != ' ')
}

/// The number of spaces that `l` starts with.
pub open spec fn lead_spaces(l: Seq<char>) -> int {
    choose|k: int| is_lead(l, k)
}

pub fn lead_spaces_exec(l: &Vec<char>) -> (r: usize)
    ensures
        r == lead_spaces(l@),
        is_lead(l@, r as int),
{
    let mut k: usize = 0;
    while k < l.len() && l[k] == ' '
        invariant
            k <= l@.len(),
            forall|i: int| 0 <= i < k ==> l@[i] == ' ',
        decreases l.len() - k,
    {
        k = k + 1;
    }
    assert(is_lead(l@, k as int));
    proof {
        let c = choose|c: int| is_lead(l@, c);
        if c < k {
            assert(l@[c] == ' ');
        } else if c > k {
            assert(l@[k as int] == ' ');
        }
    }
    k
}

/// The arguments of a line `   Running `rustc ARGS``.
pub open spec fn rustc_args(l: Seq<char>) -> Option<Seq<char>> {
    let k = lead_spaces(l);
    let rest = drop_chars(l, k);
    let p = "Running `rustc "@;
    if k >= 1 && has_prefix(rest, p) && has_suffix(rest, "`"@) && rest.len() >= p.len() + "`"@.len() {
        Some(rest.subrange(p.len() as int, rest.len() - "`"@.len()))
    } else {
        None
    }
}

pub fn rustc_args_exec(l: &Vec<char>) -> (r: Option<String>)
    ensures
        match rustc_args(l@) {
            Some(a) => r matches Some(x) && x@ == a,
            None => r is None,
        },
{
    let k = lead_spaces_exec(l);
    let rest = string_of_range(l, k, l.len());
    let rc = chars_of(rest.as_str());
    let pn = chars_of("Running `rustc ").len();
    let tn = chars_of("`").len();
    if k >= 1 && starts_with(&rc, "Running `rustc ") && ends_with(&rc, "`") && rc.len() >= pn && rc.len() - pn >= tn {
        Some(string_of_range(&rc, pn, rc.len() - tn))
    } else {
        None
    }
}

/// `CARGO_` at `i` after the command's opening quote, and `=` at `j` after it.
pub open spec fn env_at(rest: Seq<char>, i: int, j: int) -> bool {
    &&& "Running `"@.len() <= i
    &&& occurs_at(rest, "CARGO_"@, i)
    &&& i + "CARGO_"@.len() <= j < rest.len()
    &&& rest[j] == '='
}

/// The first line of a command that sets `CARGO_` variables, which may go on over more lines.
pub open spec fn env_cmd_start(l: Seq<char>) -> bool {
    let k = lead_spaces(l);
    let rest = drop_chars(l, k);
    k >= 1 && has_prefix(rest, "Running `"@) && exists|i: int, j: int| env_at(rest, i, j)
}

/// The first index at or after `from` where `p` occurs in `s`.
pub open spec fn is_first_occ(s: Seq<char>, p: Seq<char>, from: int, i: int) -> bool {
    from <= i && occurs_at(s, p, i) && forall|m: int| from <= m < i ==> !occurs_at(s, p, m)
}

pub fn first_occ(s: &Vec<char>, p: &Vec<char>, from: usize) -> (r: Option<usize>)
    ensures
        r matches Some(i) ==> is_first_occ(s@, p@, from as int, i as int),
        r is None ==> forall|m: int| from <= m ==> !occurs_at(s@, p@, m),
{
    let mut i = from;
    while i < s.len()
        invariant
            from <= i,
            forall|m: int| from <= m < i ==> !occurs_at(s@, p@, m),
        decreases s.len() - i,
    {
        if occurs_at_exec(s, p, i) {
            return Some(i);
        }
        i = i + 1;
    }
    if i == s.len() && occurs_at_exec(s, p, i) {
        return Some(i);
    }
    None
}

/// Whether `c` occurs in `s[from..to]`.
pub fn has_char_in(s: &Vec<char>, c: char, from: usize, to: usize) -> (r: bool)
    requires
        to <= s@.len(),
    ensures
        r == exists|j: int| from <= j < to && s@[j] == c,
{
    let mut j = from;
    while j < to
        invariant
            from <= j,
            to <= s@.len(),
            forall|m: int| from <= m < j ==> s@[m] != c,
        decreases to - j,
    {
        if s[j] == c {
            return true;
        }
        j = j + 1;
    }
    false
}

pub fn env_cmd_start_exec(l: &Vec<char>) -> (r: bool)
    ensures
        r == env_cmd_start(l@),
{
    let k = lead_spaces_exec(l);
    let rest = string_of_range(l, k, l.len());
    let rc = chars_of(rest.as_str());
    if k < 1 || !starts_with(&rc, "Running `") {
        return false;
    }
    assert(rc@ == drop_chars(l@, k as int));
    let cargo = chars_of("CARGO_");
    let from = chars_of("Running `").len();
    match first_occ(&rc, &cargo, from) {
        None => {
            assert(!exists|i: int, j: int| env_at(rc@, i, j));
            false
        },
        Some(f) => {
            let r = has_char_in(&rc, '=', f + cargo.len(), rc.len());
            proof {
                if r {
                    let j = choose|j: int| f + cargo@.len() <= j < rc@.len() && rc@[j] == '=';
                    assert(env_at(rc@, f as int, j));
                } else {
                    assert forall|i: int, j: int| !env_at(rc@, i, j) by {
                        if env_at(rc@, i, j) {
                            assert(i >= f);
                        }
                    }
                }
            }
            r
        },
    }
}

/// `q` is the last place of ` rustc ` in `rest` that leaves room for the closing quote.
pub open spec fn is_last_rustc(rest: Seq<char>, q: int) -> bool {
    occurs_at(rest, " rustc "@, q) && q + " rustc "@.len() < rest.len() && forall|m: int|
        q < m && m + " rustc "@.len() < rest.len() ==> !occurs_at(rest, " rustc "@, m)
}

/// The arguments of a whole command that sets `CARGO_` variables and then runs `rustc`: what
/// follows the last ` rustc `, up to the closing quote.
pub open spec fn env_cmd_args(l: Seq<char>) -> Option<Seq<char>> {
    let k = lead_spaces(l);
    let rest = drop_chars(l, k);
    if has_prefix(rest, "Running `"@) && has_suffix(rest, "`"@) && exists|i: int, j: int, q: int|
        env_at(rest, i, j) && j < q && is_last_rustc(rest, q) {
        let q = choose|q: int| is_last_rustc(rest, q);
        Some(rest.subrange(q + " rustc "@.len(), rest.len() - 1))
    } else {
        None
    }
}

/// The last place of ` rustc ` in `rc` that leaves room for a closing quote.
pub fn last_rustc(rc: &Vec<char>) -> (r: Option<usize>)
    ensures
        r matches Some(q) ==> is_last_rustc(rc@, q as int),
        r is None ==> forall|m: int| 0 <= m && m + " rustc "@.len() < rc@.len() ==> !occurs_at(rc@, " rustc "@, m),
{
    let rustc = chars_of(" rustc ");
    let rn = rustc.len();
    let mut q = rc.len();
    while q > 0
        invariant
            q <= rc@.len(),
            rn == " rustc "@.len(),
            rustc@ == " rustc "@,
            forall|m: int| q <= m && m + rn < rc@.len() ==> !occurs_at(rc@, " rustc "@, m),
        decreases q,
    {
        let m = q - 1;
        if rn < rc.len() - m && occurs_at_exec(rc, &rustc, m) {
            return Some(m);
        }
        q = m;
    }
    None
}

pub fn env_cmd_args_exec(l: &Vec<char>) -> (r: Option<String>)
    ensures
        match env_cmd_args(l@) {
            Some(a) => r matches Some(x) && x@ == a,
            None => r is None,
        },
{
    let k = lead_spaces_exec(l);
    let rest = string_of_range(l, k, l.len());
    let rc = chars_of(rest.as_str());
    if !starts_with(&rc, "Running `") || !ends_with(&rc, "`") {
        return None;
    }
    assert(rc@ == drop_chars(l@, k as int));
    let q = match last_rustc(&rc) {
        Some(q) => q,
        None => {
            assert(!exists|i: int, j: int, q: int| env_at(rc@, i, j) && j < q && is_last_rustc(rc@, q));
            return None;
        },
    };
    let rn = chars_of(" rustc ").len();
    let cargo = chars_of("CARGO_");
    let from = chars_of("Running `").len();
    let ok = match first_occ(&rc, &cargo, from) {
        None => false,
        Some(f) => {
            let lo = f + cargo.len();
            let r = lo <= q && has_char_in(&rc, '=', lo, q);
            proof {
                if r {
                    let j = choose|j: int| lo <= j < q && rc@[j] == '=';
                    assert(env_at(rc@, f as int, j) && j < q && is_last_rustc(rc@, q as int));
                } else {
                    assert forall|i: int, j: int, q2: int| !(env_at(rc@, i, j) && j < q2 && is_last_rustc(rc@, q2)) by {
                        if env_at(rc@, i, j) && j < q2 && is_last_rustc(rc@, q2) {
                            assert(i >= f);
                            if q2 < q {
                                assert(!occurs_at(rc@, " rustc "@, q as int));
                            } else if q2 > q {
                                assert(!occurs_at(rc@, " rustc "@, q2));
                            }
                        }
                    }
                }
            }
            r
        },
    };
    if !ok {
        return None;
    }
    proof {
        let q2 = choose|q2: int| is_last_rustc(rc@, q2);
        if q2 < q {
            assert(!occurs_at(rc@, " rustc "@, q as int));
        } else if q2 > q {
            assert(!occurs_at(rc@, " rustc "@, q2));
        }
    }
    Some(string_of_range(&rc, q + rn, rc.len() - 1))
}


/// A native tool invocation `[PKG ...] running: "cc" ARGS` (or `"ar"`): the package (up to the
/// first space or `]`), whether the tool is `cc`, and the arguments.
pub open spec fn native_of(l: Seq<char>) -> Option<(Seq<char>, bool, Seq<char>)> {
    if l.len() > 0 && l[0] == '[' {
        match first_index(l, ']') {
            Some(b) => {
                let inner = l.subrange(1, b);
                let pkg = match first_index(inner, ' ') {
                    Some(sp) => inner.subrange(0, sp),
                    None => inner,
                };
                let after = drop_chars(l, b + 1);
                let tail = if has_prefix(after, " running:"@) {
                    Some(drop_chars(after, " running:"@.len() as int))
                } else if has_prefix(after, " running"@) {
                    Some(drop_chars(after, " running"@.len() as int))
                } else {
                    None
                };
                match tail {
                    Some(t) => if has_prefix(t, " \"cc\" "@) {
                        Some((pkg, true, drop_chars(t, " \"cc\" "@.len() as int)))
                    } else if has_prefix(t, " \"ar\" "@) {
                        Some((pkg, false, drop_chars(t, " \"ar\" "@.len() as int)))
                    } else {
                        None
                    },
                    None => None,
                }
            },
            None => None,
        }
    } else {
        None
    }
}

/// `s` without its prefix `p`, as characters.
fn drop_prefix(s: &Vec<char>, p: &str) -> (r: Vec<char>)
    requires
        has_prefix(s@, p@),
    ensures
        r@ == drop_chars(s@, p@.len() as int),
{
    let n = chars_of(p).len();
    let t = string_of_range(s, n, s.len());
    chars_of(t.as_str())
}

pub fn native_of_exec(l: &Vec<char>) -> (r: Option<(String, bool, String)>)
    ensures
        match native_of(l@) {
            Some((p, cc, a)) => r matches Some(x) && x.0@ == p && x.1 == cc && x.2@ == a,
            None => r is None,
        },
{
    if l.len() == 0 || l[0] != '[' {
        return None;
    }
    let b = match find_first(l, ']') {
        Some(b) => b,
        None => {
            return None;
        },
    };
    let inner = chars_of(string_of_range(l, 1, b).as_str());
    let pkg = match find_first(&inner, ' ') {
        Some(sp) => string_of_range(&inner, 0, sp),
        None => string_of(&inner),
    };
    let after = chars_of(string_of_range(l, b + 1, l.len()).as_str());
    let t = if starts_with(&after, " running:") {
        drop_prefix(&after, " running:")
    } else if starts_with(&after, " running") {
        drop_prefix(&after, " running")
    } else {
        return None;
    };
    if starts_with(&t, " \"cc\" ") {
        let a = drop_prefix(&t, " \"cc\" ");
        Some((pkg, true, string_of(&a)))
    } else if starts_with(&t, " \"ar\" ") {
        let a = drop_prefix(&t, " \"ar\" ");
        Some((pkg, false, string_of(&a)))
    } else {
        None
    }
}

pub open spec fn is_digit(c: char) -> bool {
    '0' <= c && c <= '9'
}

/// The source file of a line `--> PATH:LINE...` that points at the place of a warning.
pub open spec fn warning_file(l: Seq<char>) -> Option<Seq<char>> {
    let rest = drop_chars(l, lead_spaces(l));
    if has_prefix(rest, "--> "@) {
        let r2 = drop_chars(rest, "--> "@.len() as int);
        match first_index(r2, ':') {
            Some(c) => if c + 1 < r2.len() && is_digit(r2[c + 1]) {
                Some(r2.subrange(0, c))
            } else {
                None
            },
            None => None,
        }
    } else {
        None
    }
}

pub fn warning_file_exec(l: &Vec<char>) -> (r: Option<String>)
    ensures
        match warning_file(l@) {
            Some(f) => r matches Some(x) && x@ == f,
            None => r is None,
        },
{
    let k = lead_spaces_exec(l);
    let rest = chars_of(string_of_range(l, k, l.len()).as_str());
    assert(rest@ == drop_chars(l@, k as int));
    if !starts_with(&rest, "--> ") {
        return None;
    }
    let r2 = drop_prefix(&rest, "--> ");
    match find_first(&r2, ':') {
        Some(c) => {
            if c + 1 < r2.len() && '0' <= r2[c + 1] && r2[c + 1] <= '9' {
                Some(string_of_range(&r2, 0, c))
            } else {
                None
            }
        },
        None => None,
    }
}

/// Whether `p` occurs somewhere in `s`.
pub open spec fn contains_text(s: Seq<char>, p: Seq<char>) -> bool {
    exists|i: int| occurs_at(s, p, i)
}

pub fn contains_text_exec(s: &Vec<char>, p: &str) -> (r: bool)
    ensures
        r == contains_text(s@, p@),
{
    let pc = chars_of(p);
    let r = first_occ(s, &pc, 0);
    proof {
        if r is None {
            assert forall|i: int| !occurs_at(s@, p@, i) by {
                if occurs_at(s@, p@, i) {
                    assert(0 <= i);
                }
            }
        }
    }
    r.is_some()
}

/// The number of backticks in `s`.
pub open spec fn ticks(s: Seq<char>) -> nat
    decreases s.len(),
{
    if s.len() == 0 {
        0
    } else {
        ticks(s.drop_last()) + if s.last() == '`' { 1nat } else { 0nat }
    }
}

/// A command that ends with a backtick and holds an even number of them is complete.
pub open spec fn complete(acc: Seq<char>) -> bool {
    has_suffix(acc, "`"@) && ticks(acc) % 2 == 0
}

/// Joins lines from `i` onto `acc` until the command is complete or the lines run out; the
/// index of the next line and the joined command.
pub open spec fn join_cmd(lines: Seq<Seq<char>>, i: int, acc: Seq<char>) -> (int, Seq<char>)
    decreases lines.len() - i,
{
    if complete(acc) || i >= lines.len() || i < 0 {
        (i, acc)
    } else {
        join_cmd(lines, i + 1, acc + lines[i])
    }
}


/// What a transcript records: the compiler invocations, native tool invocations by package,
/// warnings by line number, the source files that warnings point at, and errors, apart for
/// those seen while tests were listed.
pub struct CargoOut {
    pub rustc_invocations: Vec<String>,
    /// Package and arguments of each `cc` invocation, in order; a later one for a package
    /// stands for it.
    pub cc_invocations: Vec<(String, String)>,
    /// Package and arguments of each `ar` invocation, as for `cc_invocations`.
    pub ar_invocations: Vec<(String, String)>,
    /// Line number (from 0) and text of each warning line, in order.
    pub warning_lines: Vec<(usize, String)>,
    pub warning_files: Vec<String>,
    pub errors: Vec<String>,
    pub test_errors: Vec<String>,
}

/// The model of a `CargoOut`, with whether tests are being listed.
pub struct ScanState {
    pub rustc: Seq<Seq<char>>,
    pub cc: Seq<(Seq<char>, Seq<char>)>,
    pub ar: Seq<(Seq<char>, Seq<char>)>,
    pub warnings: Seq<(int, Seq<char>)>,
    pub warning_files: Seq<Seq<char>>,
    pub errors: Seq<Seq<char>>,
    pub test_errors: Seq<Seq<char>>,
    pub in_tests: bool,
}

/// Why a transcript could not be read.
#[derive(Debug)]
pub enum ScanError {
    /// A command over several lines could not be read back as a compiler invocation.
    BadCommand(String),
}

pub enum ScanFailure {
    BadCommand(Seq<char>),
}

impl View for ScanError {
    type V = ScanFailure;

    open spec fn view(&self) -> ScanFailure {
        match self {
            ScanError::BadCommand(s) => ScanFailure::BadCommand(s@),
        }
    }
}

pub open spec fn warning_views(v: Seq<(usize, String)>) -> Seq<(int, Seq<char>)> {
    v.map_values(|e: (usize, String)| (e.0 as int, e.1@))
}

impl CargoOut {
    /// The model, given whether tests are being listed.
    pub open spec fn state(&self, in_tests: bool) -> ScanState {
        ScanState {
            rustc: views(self.rustc_invocations@),
            cc: crate::config::pair_views(self.cc_invocations@),
            ar: crate::config::pair_views(self.ar_invocations@),
            warnings: warning_views(self.warning_lines@),
            warning_files: views(self.warning_files@),
            errors: views(self.errors@),
            test_errors: views(self.test_errors@),
            in_tests,
        }
    }
}

pub open spec fn empty_scan() -> ScanState {
    ScanState {
        rustc: Seq::empty(),
        cc: Seq::empty(),
        ar: Seq::empty(),
        warnings: Seq::empty(),
        warning_files: Seq::empty(),
        errors: Seq::empty(),
        test_errors: Seq::empty(),
        in_tests: false,
    }
}

/// Whether line `n` follows a warning line.
pub open spec fn after_warning(st: ScanState, n: int) -> bool {
    n > 0 && st.warnings.len() > 0 && st.warnings.last().0 == n - 1
}

pub open spec fn is_error_line(l: Seq<char>) -> bool {
    has_prefix(l, "error: "@) || has_prefix(l, "error[E"@)
}

/// One step of reading: line `n` applied to `st`, with the index of the next line to read.
pub open spec fn scan_step(lines: Seq<Seq<char>>, n: int, st: ScanState) -> Result<(int, ScanState), ScanFailure> {
    let l = lines[n];
    if has_prefix(l, "warning: "@) {
        Ok((n + 1, ScanState { warnings: st.warnings.push((n, l)), ..st }))
    } else if rustc_args(l) is Some {
        Ok((n + 1, ScanState { rustc: st.rustc.push(rustc_args(l)->0), ..st }))
    } else if env_cmd_start(l) {
        let (m, acc) = join_cmd(lines, n + 1, l);
        match env_cmd_args(acc) {
            Some(a) => Ok((m, ScanState { rustc: st.rustc.push(a), ..st })),
            None => Err(ScanFailure::BadCommand(acc)),
        }
    } else if native_of(l) is Some {
        let (p, cc, a) = native_of(l)->0;
        if cc {
            Ok((n + 1, ScanState { cc: st.cc.push((p, a)), ..st }))
        } else {
            Ok((n + 1, ScanState { ar: st.ar.push((p, a)), ..st }))
        }
    } else if after_warning(st, n) && warning_file(l) is Some {
        let f = warning_file(l)->0;
        if has_prefix(f, "/"@) {
            Ok((n + 1, st))
        } else {
            Ok((n + 1, ScanState { warning_files: st.warning_files.push(f), ..st }))
        }
    } else if is_error_line(l) {
        if st.in_tests {
            Ok((n + 1, ScanState { test_errors: st.test_errors.push(l), ..st }))
        } else {
            Ok((n + 1, ScanState { errors: st.errors.push(l), ..st }))
        }
    } else if has_prefix(l, "### Running: "@) {
        Ok((n + 1, ScanState { in_tests: contains_text(l, "cargo test"@) && contains_text(l, "--list"@), ..st }))
    } else {
        Ok((n + 1, st))
    }
}

/// Reads the lines from `n` on into `st`.
pub open spec fn scan_from(lines: Seq<Seq<char>>, n: int, st: ScanState) -> Result<ScanState, ScanFailure>
    decreases lines.len() - n,
{
    if n < 0 || n >= lines.len() {
        Ok(st)
    } else {
        match scan_step(lines, n, st) {
            Ok((m, st2)) => if n < m <= lines.len() { scan_from(lines, m, st2) } else { Ok(st2) },
            Err(e) => Err(e),
        }
    }
}

/// What a transcript records.
pub open spec fn scan_spec(text: Seq<char>) -> Result<ScanState, ScanFailure> {
    scan_from(lines_of(text), 0, empty_scan())
}

proof fn lemma_join_cmd_bounds(lines: Seq<Seq<char>>, i: int, acc: Seq<char>)
    requires
        0 <= i,
    ensures
        join_cmd(lines, i, acc).0 >= i,
    decreases lines.len() - i,
{
    if !(complete(acc) || i >= lines.len()) {
        lemma_join_cmd_bounds(lines, i + 1, acc + lines[i]);
    }
}

/// Joins lines onto `first` until the command is complete; see `join_cmd`.
fn join_cmd_exec(lines: &Vec<Vec<char>>, start: usize, first: &Vec<char>) -> (r: (usize, Vec<char>))
    requires
        start <= lines@.len(),
    ensures
        join_cmd(lines@.map_values(|l: Vec<char>| l@), start as int, first@) == (r.0 as int, r.1@),
        start <= r.0 <= lines@.len(),
{
    let ghost lv = lines@.map_values(|l: Vec<char>| l@);
    let mut acc = first.clone();
    assert(acc@ == first@);
    let mut tk: usize = 0;
    let mut k: usize = 0;
    while k < acc.len()
        invariant
            k <= acc@.len(),
            tk <= k,
            tk == ticks(acc@.take(k as int)),
        decreases acc.len() - k,
    {
        assert(acc@.take(k + 1).drop_last() =~= acc@.take(k as int));
        if acc[k] == '`' {
            tk = tk + 1;
        }
        k = k + 1;
    }
    assert(acc@.take(acc@.len() as int) =~= acc@);
    let mut j = start;
    while j < lines.len()
        invariant
            start <= j <= lines@.len(),
            lv == lines@.map_values(|l: Vec<char>| l@),
            tk == ticks(acc@),
            tk <= acc.len(),
            join_cmd(lv, start as int, first@) == join_cmd(lv, j as int, acc@),
        decreases lines.len() - j,
    {
        if ends_with(&acc, "`") && tk % 2 == 0 {
            assert(complete(acc@));
            assert(join_cmd(lv, j as int, acc@) == (j as int, acc@));
            return (j, acc);
        }
        let ghost acc0 = acc@;
        let line = &lines[j];
        assert(line@ == lv[j as int]);
        let mut c: usize = 0;
        while c < line.len()
            invariant
                c <= line@.len(),
                acc@ == acc0 + line@.take(c as int),
                tk == ticks(acc@),
                tk <= acc.len(),
            decreases line.len() - c,
        {
            let ch = line[c];
            let ghost before = acc@;
            acc.push(ch);
            assert(acc@.drop_last() =~= before);
            assert(tk < acc.len());
            if ch == '`' {
                tk = tk + 1;
            }
            c = c + 1;
            assert(acc@ =~= acc0 + line@.take(c as int));
        }
        assert(line@.take(line@.len() as int) =~= line@);
        j = j + 1;
    }
    assert(join_cmd(lv, j as int, acc@) == (j as int, acc@));
    (j, acc)
}

fn push_str_view(v: &mut Vec<String>, s: String)
    ensures
        views(final(v)@) == views(old(v)@).push(s@),
{
    v.push(s);
    assert(views(v@) =~= views(old(v)@).push(s@));
}

fn push_pair_view(v: &mut Vec<(String, String)>, a: String, b: String)
    ensures
        crate::config::pair_views(final(v)@) == crate::config::pair_views(old(v)@).push((a@, b@)),
{
    v.push((a, b));
    assert(crate::config::pair_views(v@) =~= crate::config::pair_views(old(v)@).push((a@, b@)));
}

impl CargoOut {
    pub fn new() -> (r: CargoOut)
        ensures
            r.state(false) == empty_scan(),
            r.warning_lines@.len() == 0,
    {
        let r = CargoOut {
            rustc_invocations: Vec::new(),
            cc_invocations: Vec::new(),
            ar_invocations: Vec::new(),
            warning_lines: Vec::new(),
            warning_files: Vec::new(),
            errors: Vec::new(),
            test_errors: Vec::new(),
        };
        assert(r.state(false).rustc =~= Seq::empty());
        assert(r.state(false).cc =~= Seq::empty());
        assert(r.state(false).ar =~= Seq::empty());
        assert(r.state(false).warnings =~= Seq::empty());
        assert(r.state(false).warning_files =~= Seq::empty());
        assert(r.state(false).errors =~= Seq::empty());
        assert(r.state(false).test_errors =~= Seq::empty());
        r
    }
}


fn scan_step_exec(lines: &Vec<Vec<char>>, n: usize, out: &mut CargoOut, in_tests: &mut bool) -> (r: Result<usize, ScanError>)
    requires
        n < lines.len(),
        forall|i: int| 0 <= i < old(out).warning_lines@.len() ==> old(out).warning_lines@[i].0 < n,
    ensures
        match scan_step(lines@.map_values(|l: Vec<char>| l@), n as int, old(out).state(*old(in_tests))) {
            Ok((m, st)) => r == Ok::<usize, ScanError>(m as usize) && n < m <= lines@.len()
                && final(out).state(*final(in_tests)) == st,
            Err(e) => r matches Err(x) && x@ == e,
        },
        forall|i: int| 0 <= i < final(out).warning_lines@.len() ==> final(out).warning_lines@[i].0 <= n,
{
    let ghost lv = lines@.map_values(|l: Vec<char>| l@);
    let l = &lines[n];
    assert(l@ == lv[n as int]);
    if starts_with(l, "warning: ") {
        let ghost prev = warning_views(out.warning_lines@);
        out.warning_lines.push((n, string_of(l)));
        assert(warning_views(out.warning_lines@) =~= prev.push((n as int, l@)));
        return Ok(n + 1);
    }
    match rustc_args_exec(l) {
        Some(a) => {
            push_str_view(&mut out.rustc_invocations, a);
            return Ok(n + 1);
        },
        None => {},
    }
    if env_cmd_start_exec(l) {
        proof {
            lemma_join_cmd_bounds(lv, n + 1, l@);
        }
        let (m, acc) = join_cmd_exec(lines, n + 1, l);
        match env_cmd_args_exec(&acc) {
            Some(a) => {
                push_str_view(&mut out.rustc_invocations, a);
                return Ok(m);
            },
            None => {
                return Err(ScanError::BadCommand(string_of(&acc)));
            },
        }
    }
    match native_of_exec(l) {
        Some((p, cc, a)) => {
            if cc {
                push_pair_view(&mut out.cc_invocations, p, a);
            } else {
                push_pair_view(&mut out.ar_invocations, p, a);
            }
            return Ok(n + 1);
        },
        None => {},
    }
    let wn = out.warning_lines.len();
    let after = n > 0 && wn > 0 && out.warning_lines[wn - 1].0 == n - 1;
    assert(after == after_warning(old(out).state(*old(in_tests)), n as int)) by {
        if wn > 0 {
            assert(warning_views(out.warning_lines@).last() == (out.warning_lines@[wn - 1].0 as int, out.warning_lines@[wn - 1].1@));
        }
    }
    if after {
        match warning_file_exec(l) {
            Some(f) => {
                if !crate::text::str_starts_with(f.as_str(), "/") {
                    push_str_view(&mut out.warning_files, f);
                }
                return Ok(n + 1);
            },
            None => {},
        }
    }
    if starts_with(l, "error: ") || starts_with(l, "error[E") {
        if *in_tests {
            push_str_view(&mut out.test_errors, string_of(l));
        } else {
            push_str_view(&mut out.errors, string_of(l));
        }
        return Ok(n + 1);
    }
    if starts_with(l, "### Running: ") {
        *in_tests = contains_text_exec(l, "cargo test") && contains_text_exec(l, "--list");
        return Ok(n + 1);
    }
    Ok(n + 1)
}

impl CargoOut {
    /// Reads a build transcript; see `scan_spec`.
    pub fn parse(contents: &str) -> (r: Result<CargoOut, ScanError>)
        ensures
            match scan_spec(contents@) {
                Ok(st) => r matches Ok(x) && x.state(st.in_tests) == st,
                Err(e) => r matches Err(x) && x@ == e,
            },
    {
        let lines = split_lines(contents);
        let ghost lv = lines@.map_values(|l: Vec<char>| l@);
        let mut out = CargoOut::new();
        let mut in_tests = false;
        let mut n: usize = 0;
        while n < lines.len()
            invariant
                lv == lines@.map_values(|l: Vec<char>| l@),
                lv == lines_of(contents@),
                n <= lines@.len(),
                forall|i: int| 0 <= i < out.warning_lines@.len() ==> out.warning_lines@[i].0 < n,
                scan_spec(contents@) == scan_from(lv, n as int, out.state(in_tests)),
            decreases lines.len() - n,
        {
            let ghost pre = out.state(in_tests);
            match scan_step_exec(&lines, n, &mut out, &mut in_tests) {
                Ok(m) => {
                    n = m;
                },
                Err(e) => {
                    assert(scan_from(lv, n as int, pre) == Err::<ScanState, ScanFailure>(e@));
                    return Err(e);
                },
            }
        }
        Ok(out)
    }
}

} // verus!
