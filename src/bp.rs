//! The build-file value model and its text form.
use vstd::prelude::*;
use crate::text::{append_str, lex_lt, lemma_lex_irreflexive, lemma_lex_total, lemma_lex_transitive, lemma_lex_asymmetric, str_eq, str_lt};

verus! {

broadcast use vstd::std_specs::vec::group_vec_axioms;

/// A property value: a boolean, a string, a list of values or a nested property map.
pub enum BpValue {
    Object(BpProperties),
    Bool(bool),
    Str(String),
    List(Vec<BpValue>),
}

/// A property map, held in emission order, with an optional raw tail.
pub struct BpProperties {
    pub map: Vec<(String, BpValue)>,
    pub raw_block: Option<String>,
}

pub open spec fn value_text(v: BpValue) -> Seq<char>
    decreases v, 0nat,
{
    match v {
        BpValue::Object(p) => props_text(p),
        BpValue::Bool(b) => if b { "true"@ } else { "false"@ },
        BpValue::Str(s) => "\""@ + s@ + "\""@,
        BpValue::List(vs) => "["@ + items_text(vs, vs@.len() as int) + "]"@,
    }
}

pub open spec fn items_text(vs: Vec<BpValue>, n: int) -> Seq<char>
    decreases vs, n,
{
    if n <= 0 || n > vs@.len() {
        Seq::empty()
    } else if n == 1 {
        value_text(vs@[0])
    } else {
        items_text(vs, n - 1) + ", "@ + value_text(vs@[n - 1])
    }
}

pub open spec fn entries_text(p: BpProperties, n: int) -> Seq<char>
    decreases p, n,
{
    if n <= 0 || n > p.map@.len() {
        Seq::empty()
    } else {
        entries_text(p, n - 1) + p.map@[n - 1].0@ + ": "@ + value_text(p.map@[n - 1].1) + ",\n"@
    }
}

pub open spec fn props_text(p: BpProperties) -> Seq<char>
    decreases p, p.map@.len() + 1,
{
    "{\n"@ + entries_text(p, p.map@.len() as int) + match p.raw_block {
        Some(r) => r@ + ",\n"@,
        None => Seq::empty(),
    } + "}"@
}


/// The model of a property value: strings as character sequences and property maps as maps.
pub enum ValueView {
    Object(Map<Seq<char>, ValueView>, Option<Seq<char>>),
    Bool(bool),
    Str(Seq<char>),
    List(Seq<ValueView>),
}

pub open spec fn value_view(v: BpValue) -> ValueView
    decreases v, 0nat,
{
    match v {
        BpValue::Object(p) => ValueView::Object(entries_map(p.map@), raw_view(p.raw_block)),
        BpValue::Bool(b) => ValueView::Bool(b),
        BpValue::Str(s) => ValueView::Str(s@),
        BpValue::List(vs) => ValueView::List(items_view(vs@)),
    }
}

pub open spec fn raw_view(o: Option<String>) -> Option<Seq<char>> {
    match o {
        Some(r) => Some(r@),
        None => None,
    }
}

pub open spec fn items_view(s: Seq<BpValue>) -> Seq<ValueView>
    decreases s, 1nat,
{
    if s.len() == 0 {
        Seq::empty()
    } else {
        items_view(s.subrange(0, s.len() - 1)).push(value_view(s[s.len() - 1]))
    }
}

/// The map that a sequence of entries describes; a later entry for a name wins.
pub open spec fn entries_map(s: Seq<(String, BpValue)>) -> Map<Seq<char>, ValueView>
    decreases s, 1nat,
{
    if s.len() == 0 {
        Map::empty()
    } else {
        entries_map(s.subrange(0, s.len() - 1)).insert(
            s[s.len() - 1].0@,
            value_view(s[s.len() - 1].1),
        )
    }
}

/// Names held in strictly increasing canonical order.
pub open spec fn keys_sorted(s: Seq<(String, BpValue)>) -> bool {
    forall|i: int, j: int|
        0 <= i < j < s.len() ==> key_before(#[trigger] s[i].0@, #[trigger] s[j].0@)
}

/// With sorted names, the map holds each entry's name with that entry's value, and no other
/// names.
pub proof fn lemma_entries_map(s: Seq<(String, BpValue)>)
    requires
        keys_sorted(s),
    ensures
        forall|k: Seq<char>|
            entries_map(s).dom().contains(k) <==> exists|i: int| 0 <= i < s.len() && #[trigger] s[i].0@ == k,
        forall|i: int| 0 <= i < s.len() ==> entries_map(s)[#[trigger] s[i].0@] == value_view(s[i].1),
    decreases s.len(),
{
    if s.len() > 0 {
        let t = s.subrange(0, s.len() - 1);
        assert(keys_sorted(t)) by {
            assert forall|i: int, j: int| 0 <= i < j < t.len() implies key_before(#[trigger] t[i].0@, #[trigger] t[j].0@) by {
                assert(t[i] == s[i] && t[j] == s[j]);
            }
        }
        lemma_entries_map(t);
        assert forall|k: Seq<char>| entries_map(s).dom().contains(k) <==> exists|i: int| 0 <= i < s.len() && #[trigger] s[i].0@ == k by {
            if entries_map(t).dom().contains(k) {
                let i = choose|i: int| 0 <= i < t.len() && #[trigger] t[i].0@ == k;
                assert(s[i] == t[i]);
            }
            if exists|i: int| 0 <= i < s.len() && #[trigger] s[i].0@ == k {
                let i = choose|i: int| 0 <= i < s.len() && #[trigger] s[i].0@ == k;
                if i < s.len() - 1 {
                    assert(t[i] == s[i]);
                }
            }
        }
        assert forall|i: int| 0 <= i < s.len() implies entries_map(s)[#[trigger] s[i].0@] == value_view(s[i].1) by {
            if i < s.len() - 1 {
                assert(t[i] == s[i]);
                assert(key_before(s[i].0@, s[s.len() - 1].0@));
                lemma_key_before_irreflexive(s[i].0@);
            }
        }
    }
}

/// `i` is the last entry of `s` named `k`.
pub open spec fn is_last_key(s: Seq<(String, BpValue)>, k: Seq<char>, i: int) -> bool {
    0 <= i < s.len() && s[i].0@ == k && forall|j: int| i < j < s.len() ==> s[j].0@ != k
}

/// The map holds the names of the entries, each with the value of its last entry.
pub proof fn lemma_entries_map_last(s: Seq<(String, BpValue)>)
    ensures
        forall|k: Seq<char>|
            entries_map(s).dom().contains(k) <==> exists|i: int| 0 <= i < s.len() && #[trigger] s[i].0@ == k,
        forall|k: Seq<char>, i: int| #[trigger] is_last_key(s, k, i) ==> entries_map(s)[k] == value_view(s[i].1),
    decreases s.len(),
{
    if s.len() > 0 {
        let t = s.subrange(0, s.len() - 1);
        lemma_entries_map_last(t);
        assert forall|k: Seq<char>| entries_map(s).dom().contains(k) <==> exists|i: int| 0 <= i < s.len() && #[trigger] s[i].0@ == k by {
            if entries_map(t).dom().contains(k) {
                let i = choose|i: int| 0 <= i < t.len() && #[trigger] t[i].0@ == k;
                assert(s[i] == t[i]);
            }
            if exists|i: int| 0 <= i < s.len() && #[trigger] s[i].0@ == k {
                let i = choose|i: int| 0 <= i < s.len() && #[trigger] s[i].0@ == k;
                if i < s.len() - 1 {
                    assert(t[i] == s[i]);
                }
            }
        }
        assert forall|k: Seq<char>, i: int| #[trigger] is_last_key(s, k, i) implies entries_map(s)[k] == value_view(s[i].1) by {
            if i < s.len() - 1 {
                assert(t[i] == s[i]);
                assert(is_last_key(t, k, i));
            }
        }
    }
}

pub proof fn lemma_items_view(s: Seq<BpValue>)
    ensures
        items_view(s).len() == s.len(),
        forall|i: int| 0 <= i < s.len() ==> #[trigger] items_view(s)[i] == value_view(s[i]),
    decreases s.len(),
{
    if s.len() > 0 {
        let t = s.subrange(0, s.len() - 1);
        lemma_items_view(t);
        assert forall|i: int| 0 <= i < s.len() implies #[trigger] items_view(s)[i] == value_view(s[i]) by {
            if i < s.len() - 1 {
                assert(t[i] == s[i]);
            }
        }
    }
}

/// The last entry of `p` named `k`.
pub fn find_last_key(p: &BpProperties, k: &str) -> (r: Option<usize>)
    ensures
        r matches Some(i) ==> is_last_key(p.map@, k@, i as int),
        r is None ==> forall|j: int| 0 <= j < p.map@.len() ==> p.map@[j].0@ != k@,
{
    let mut i = p.map.len();
    while i > 0
        invariant
            i <= p.map@.len(),
            forall|j: int| i <= j < p.map@.len() ==> p.map@[j].0@ != k@,
        decreases i,
    {
        if str_eq(p.map[i - 1].0.as_str(), k) {
            return Some(i - 1);
        }
        i = i - 1;
    }
    None
}

/// Whether two values are equal as values.
pub fn values_equal(a: &BpValue, b: &BpValue) -> (r: bool)
    ensures
        r == (value_view(*a) == value_view(*b)),
    decreases a, 0nat,
{
    match (a, b) {
        (BpValue::Bool(x), BpValue::Bool(y)) => *x == *y,
        (BpValue::Str(x), BpValue::Str(y)) => str_eq(x.as_str(), y.as_str()),
        (BpValue::Object(p), BpValue::Object(q)) => props_equal(p, q),
        (BpValue::List(xs), BpValue::List(ys)) => {
            proof {
                lemma_items_view(xs@);
                lemma_items_view(ys@);
            }
            if xs.len() != ys.len() {
                return false;
            }
            let mut i: usize = 0;
            while i < xs.len()
                invariant
                    *a == BpValue::List(*xs),
                    *b == BpValue::List(*ys),
                    xs@.len() == ys@.len(),
                    items_view(xs@).len() == xs@.len(),
                    items_view(ys@).len() == ys@.len(),
                    forall|j: int| 0 <= j < xs@.len() ==> #[trigger] items_view(xs@)[j] == value_view(xs@[j]),
                    forall|j: int| 0 <= j < ys@.len() ==> #[trigger] items_view(ys@)[j] == value_view(ys@[j]),
                    i <= xs@.len(),
                    forall|j: int| 0 <= j < i ==> value_view(xs@[j]) == value_view(ys@[j]),
                decreases xs.len() - i,
            {
                proof {
                    vstd::std_specs::vec::axiom_vec_index_decreases(*xs, i as int);
                    assert(decreases_to!(*a => a->List_0));
                }
                if !values_equal(&xs[i], &ys[i]) {
                    assert(items_view(xs@)[i as int] != items_view(ys@)[i as int]);
                    return false;
                }
                i = i + 1;
            }
            assert(items_view(xs@) =~= items_view(ys@));
            true
        },
        _ => false,
    }
}

/// Whether two property maps are equal as maps, with the same raw tail.
pub fn props_equal(p: &BpProperties, q: &BpProperties) -> (r: bool)
    ensures
        r == (entries_map(p.map@) == entries_map(q.map@) && raw_view(p.raw_block) == raw_view(q.raw_block)),
    decreases p, p.map@.len() + 1,
{
    proof {
        lemma_entries_map_last(p.map@);
        lemma_entries_map_last(q.map@);
    }
    let raw_same = match (&p.raw_block, &q.raw_block) {
        (Some(x), Some(y)) => str_eq(x.as_str(), y.as_str()),
        (None, None) => true,
        _ => false,
    };
    if !raw_same {
        return false;
    }
    let ghost mp = entries_map(p.map@);
    let ghost mq = entries_map(q.map@);
    let mut i: usize = 0;
    while i < p.map.len()
        invariant
            mp == entries_map(p.map@),
            mq == entries_map(q.map@),
            forall|k: Seq<char>| mp.dom().contains(k) <==> exists|i: int| 0 <= i < p.map@.len() && #[trigger] p.map@[i].0@ == k,
            forall|k: Seq<char>, i: int| #[trigger] is_last_key(p.map@, k, i) ==> mp[k] == value_view(p.map@[i].1),
            forall|k: Seq<char>| mq.dom().contains(k) <==> exists|i: int| 0 <= i < q.map@.len() && #[trigger] q.map@[i].0@ == k,
            forall|k: Seq<char>, i: int| #[trigger] is_last_key(q.map@, k, i) ==> mq[k] == value_view(q.map@[i].1),
            i <= p.map@.len(),
            forall|j: int| 0 <= j < i ==> mq.dom().contains(#[trigger] p.map@[j].0@) && mq[p.map@[j].0@] == mp[p.map@[j].0@],
        decreases p.map.len() - i,
    {
        let k = p.map[i].0.as_str();
        let last_p = match find_last_key(p, k) {
            Some(l) => l,
            None => {
                return false;
            },
        };
        let last_q = match find_last_key(q, k) {
            Some(l) => l,
            None => {
                assert(mp.dom().contains(k@));
                return false;
            },
        };
        if !values_equal(&p.map[last_p].1, &q.map[last_q].1) {
            assert(mp[k@] != mq[k@]);
            return false;
        }
        i = i + 1;
    }
    let mut j: usize = 0;
    while j < q.map.len()
        invariant
            mp == entries_map(p.map@),
            mq == entries_map(q.map@),
            forall|k: Seq<char>| mp.dom().contains(k) <==> exists|i: int| 0 <= i < p.map@.len() && #[trigger] p.map@[i].0@ == k,
            forall|k: Seq<char>| mq.dom().contains(k) <==> exists|i: int| 0 <= i < q.map@.len() && #[trigger] q.map@[i].0@ == k,
            j <= q.map@.len(),
            forall|m: int| 0 <= m < j ==> mp.dom().contains(#[trigger] q.map@[m].0@),
        decreases q.map.len() - j,
    {
        let k = q.map[j].0.as_str();
        if find_last_key(p, k).is_none() {
            assert(mq.dom().contains(k@));
            return false;
        }
        j = j + 1;
    }
    assert forall|k: Seq<char>| mp.dom().contains(k) <==> mq.dom().contains(k) by {
        if mp.dom().contains(k) {
            let i = choose|i: int| 0 <= i < p.map@.len() && #[trigger] p.map@[i].0@ == k;
        }
        if mq.dom().contains(k) {
            let i = choose|i: int| 0 <= i < q.map@.len() && #[trigger] q.map@[i].0@ == k;
        }
    }
    assert forall|k: Seq<char>| mp.dom().contains(k) implies mp[k] == mq[k] by {
        let i = choose|i: int| 0 <= i < p.map@.len() && #[trigger] p.map@[i].0@ == k;
    }
    assert(mp =~= mq);
    true
}

/// Giving one entry a new value keeps the names in order, and the map gains that value.
pub broadcast proof fn lemma_entries_map_update(s: Seq<(String, BpValue)>, i: int, v: BpValue)
    requires
        keys_sorted(s),
        0 <= i < s.len(),
    ensures
        #![trigger entries_map(s.update(i, (s[i].0, v)))]
        keys_sorted(s.update(i, (s[i].0, v))),
        entries_map(s.update(i, (s[i].0, v))) == entries_map(s).insert(s[i].0@, value_view(v)),
{
    let t = s.update(i, (s[i].0, v));
    assert forall|a: int, b: int| 0 <= a < b < t.len() implies key_before(#[trigger] t[a].0@, #[trigger] t[b].0@) by {
        assert(t[a].0 == s[a].0 && t[b].0 == s[b].0);
    }
    lemma_entries_map(s);
    lemma_entries_map(t);
    let ms = entries_map(s).insert(s[i].0@, value_view(v));
    let mt = entries_map(t);
    assert forall|k: Seq<char>| #[trigger] mt.dom().contains(k) <==> ms.dom().contains(k) by {
        if mt.dom().contains(k) {
            let j = choose|j: int| 0 <= j < t.len() && #[trigger] t[j].0@ == k;
            assert(s[j].0 == t[j].0);
        }
        if entries_map(s).dom().contains(k) {
            let j = choose|j: int| 0 <= j < s.len() && #[trigger] s[j].0@ == k;
            assert(s[j].0 == t[j].0);
        }
        if k == s[i].0@ {
            assert(t[i].0@ == k);
        }
    }
    assert forall|k: Seq<char>| #[trigger] mt.dom().contains(k) implies mt[k] == ms[k] by {
        let j = choose|j: int| 0 <= j < t.len() && #[trigger] t[j].0@ == k;
        if j != i {
            assert(t[j] == s[j]);
            if k == s[i].0@ {
                if j < i {
                    assert(key_before(s[j].0@, s[i].0@));
                } else {
                    assert(key_before(s[i].0@, s[j].0@));
                }
                lemma_key_before_irreflexive(k);
            }
        }
    }
    assert(mt =~= ms);
}

/// A module of a build file: its type and its properties.
pub struct BpModule {
    pub module_type: String,
    pub props: BpProperties,
}

pub open spec fn module_text(m: BpModule) -> Seq<char> {
    m.module_type@ + " "@ + props_text(m.props) + "\n"@
}

impl BpModule {
    pub fn new(module_type: String) -> (r: BpModule)
        ensures
            r.module_type == module_type,
            r.props.wf(),
            r.props.view_map() == Map::<Seq<char>, ValueView>::empty(),
            r.props.map@.len() == 0,
            r.props.raw_block is None,
    {
        BpModule { module_type, props: BpProperties::new() }
    }

    /// Appends the text form of this module to `w`.
    pub fn write(&self, w: &mut String)
        ensures
            final(w)@ == old(w)@ + module_text(*self),
    {
        let ghost start = w@;
        append_str(w, self.module_type.as_str());
        append_str(w, " ");
        self.props.write(w);
        append_str(w, "\n");
        assert(w@ =~= start + module_text(*self));
    }
}

/// The position of a property name in the canonical order; names outside it come after all
/// of them.
pub open spec fn key_rank(k: Seq<char>) -> nat {
    if k == "name"@ { 0 }
    else if k == "defaults"@ { 1 }
    else if k == "stem"@ { 2 }
    else if k == "host_supported"@ { 3 }
    else if k == "prefer_rlib"@ { 4 }
    else if k == "crate_name"@ { 5 }
    else if k == "cargo_env_compat"@ { 6 }
    else if k == "cargo_pkg_version"@ { 7 }
    else if k == "srcs"@ { 8 }
    else if k == "test_suites"@ { 9 }
    else if k == "auto_gen_config"@ { 10 }
    else if k == "test_options"@ { 11 }
    else if k == "edition"@ { 12 }
    else if k == "features"@ { 13 }
    else if k == "rustlibs"@ { 14 }
    else if k == "proc_macros"@ { 15 }
    else if k == "static_libs"@ { 16 }
    else if k == "shared_libs"@ { 17 }
    else if k == "arch"@ { 18 }
    else if k == "target"@ { 19 }
    else if k == "ld_flags"@ { 20 }
    else if k == "apex_available"@ { 21 }
    else { 22 }
}

/// The order of properties in the text: by canonical rank, then by name.
pub open spec fn key_before(a: Seq<char>, b: Seq<char>) -> bool {
    key_rank(a) < key_rank(b) || (key_rank(a) == key_rank(b) && lex_lt(a, b))
}

pub proof fn lemma_key_before_irreflexive(a: Seq<char>)
    ensures
        !key_before(a, a),
{
    lemma_lex_irreflexive(a);
}

pub proof fn lemma_key_before_total(a: Seq<char>, b: Seq<char>)
    ensures
        key_before(a, b) || key_before(b, a) || a == b,
{
    lemma_lex_total(a, b);
}

pub proof fn lemma_key_before_asymmetric(a: Seq<char>, b: Seq<char>)
    ensures
        !(key_before(a, b) && key_before(b, a)),
{
    lemma_lex_asymmetric(a, b);
}

pub proof fn lemma_key_before_transitive(a: Seq<char>, b: Seq<char>, c: Seq<char>)
    requires
        key_before(a, b),
        key_before(b, c),
    ensures
        key_before(a, c),
{
    if key_rank(a) == key_rank(b) && key_rank(b) == key_rank(c) {
        lemma_lex_transitive(a, b, c);
    }
}

/// The canonical rank of a property name.
pub fn rank_of(k: &str) -> (r: usize)
    ensures
        r == key_rank(k@),
{
    if str_eq(k, "name") { 0 }
    else if str_eq(k, "defaults") { 1 }
    else if str_eq(k, "stem") { 2 }
    else if str_eq(k, "host_supported") { 3 }
    else if str_eq(k, "prefer_rlib") { 4 }
    else if str_eq(k, "crate_name") { 5 }
    else if str_eq(k, "cargo_env_compat") { 6 }
    else if str_eq(k, "cargo_pkg_version") { 7 }
    else if str_eq(k, "srcs") { 8 }
    else if str_eq(k, "test_suites") { 9 }
    else if str_eq(k, "auto_gen_config") { 10 }
    else if str_eq(k, "test_options") { 11 }
    else if str_eq(k, "edition") { 12 }
    else if str_eq(k, "features") { 13 }
    else if str_eq(k, "rustlibs") { 14 }
    else if str_eq(k, "proc_macros") { 15 }
    else if str_eq(k, "static_libs") { 16 }
    else if str_eq(k, "shared_libs") { 17 }
    else if str_eq(k, "arch") { 18 }
    else if str_eq(k, "target") { 19 }
    else if str_eq(k, "ld_flags") { 20 }
    else if str_eq(k, "apex_available") { 21 }
    else { 22 }
}

/// Whether property `a` is written before property `b`.
pub fn key_before_exec(a: &str, b: &str) -> (r: bool)
    ensures
        r == key_before(a@, b@),
{
    let ra = rank_of(a);
    let rb = rank_of(b);
    ra < rb || (ra == rb && str_lt(a, b))
}

/// Property names are written in canonical order: a ranked name before every name of higher
/// rank and before every unranked name, and unranked names in lexicographic order.
pub proof fn lemma_property_order(p: BpProperties, i: int, j: int)
    requires
        p.wf(),
        0 <= i < j < p.map@.len(),
    ensures
        key_rank(p.map@[i].0@) <= key_rank(p.map@[j].0@),
        key_rank(p.map@[i].0@) == 22 ==> key_rank(p.map@[j].0@) == 22 && lex_lt(
            p.map@[i].0@,
            p.map@[j].0@,
        ),
        key_rank(p.map@[j].0@) < 22 ==> key_rank(p.map@[i].0@) <= key_rank(p.map@[j].0@),
        p.map@[i].0@ != p.map@[j].0@,
{
    assert(key_before(p.map@[i].0@, p.map@[j].0@));
    lemma_key_before_irreflexive(p.map@[i].0@);
}

impl BpValue {
    /// Appends the text form of this value to `w`.
    pub fn write(&self, w: &mut String)
        ensures
            final(w)@ == old(w)@ + value_text(*self),
        decreases self, 0nat,
    {
        match self {
            BpValue::Object(p) => p.write(w),
            BpValue::Bool(b) => {
                if *b {
                    append_str(w, "true");
                } else {
                    append_str(w, "false");
                }
            },
            BpValue::Str(s) => {
                append_str(w, "\"");
                append_str(w, s.as_str());
                append_str(w, "\"");
            },
            BpValue::List(vs) => {
                let ghost start = w@;
                append_str(w, "[");
                let mut i: usize = 0;
                while i < vs.len()
                    invariant
                        *self == BpValue::List(*vs),
                        i <= vs@.len(),
                        w@ == start + "["@ + items_text(*vs, i as int),
                    decreases vs.len() - i,
                {
                    if i > 0 {
                        append_str(w, ", ");
                    }
                    proof {
                        vstd::std_specs::vec::axiom_vec_index_decreases(*vs, i as int);
                        assert(decreases_to!(*self => self->List_0));
                    }
                    vs[i].write(w);
                    i = i + 1;
                    assert(w@ =~= start + "["@ + items_text(*vs, i as int));
                }
                append_str(w, "]");
                assert(w@ =~= start + value_text(*self));
            },
        }
    }
}

impl BpProperties {
    /// The property names, in the order they are held and written.
    pub open spec fn keys(&self) -> Seq<Seq<char>> {
        self.map@.map_values(|e: (String, BpValue)| e.0@)
    }

    /// Properties are held in the order they are written, each name once.
    pub open spec fn wf(&self) -> bool {
        keys_sorted(self.map@)
    }

    /// The properties as a map from names to values.
    pub open spec fn view_map(&self) -> Map<Seq<char>, ValueView> {
        entries_map(self.map@)
    }

    /// Whether the property `k` holds the value `v`.
    pub open spec fn has(&self, k: Seq<char>, v: BpValue) -> bool {
        exists|i: int| 0 <= i < self.map@.len() && #[trigger] self.map@[i].0@ == k && self.map@[i].1 == v
    }

    /// Whether some property is named `k`.
    pub open spec fn has_key(&self, k: Seq<char>) -> bool {
        exists|i: int| 0 <= i < self.map@.len() && #[trigger] self.map@[i].0@ == k
    }

    /// Appends the text form of this property map to `w`.
    pub fn write(&self, w: &mut String)
        ensures
            final(w)@ == old(w)@ + props_text(*self),
        decreases self, self.map@.len() + 1,
    {
        let ghost start = w@;
        append_str(w, "{\n");
        let mut i: usize = 0;
        while i < self.map.len()
            invariant
                i <= self.map@.len(),
                w@ == start + "{\n"@ + entries_text(*self, i as int),
            decreases self.map.len() - i,
        {
            append_str(w, self.map[i].0.as_str());
            append_str(w, ": ");
            self.map[i].1.write(w);
            append_str(w, ",\n");
            i = i + 1;
            assert(w@ =~= start + "{\n"@ + entries_text(*self, i as int));
        }
        match &self.raw_block {
            Some(r) => {
                append_str(w, r.as_str());
                append_str(w, ",\n");
            },
            None => {},
        }
        append_str(w, "}");
        assert(w@ =~= start + props_text(*self));
    }

    /// The string held by property `k`.
    pub fn get_string(&self, k: &str) -> (r: &str)
        requires
            exists|t: String| self.has(k@, BpValue::Str(t)),
        ensures
            exists|t: String| self.has(k@, BpValue::Str(t)) && t@ == r@,
    {
        let mut i: usize = 0;
        while i < self.map.len()
            invariant
                i <= self.map@.len(),
                exists|t: String| self.has(k@, BpValue::Str(t)),
                forall|m: int| 0 <= m < i ==> !(#[trigger] self.map@[m].0@ == k@ && self.map@[m].1 is Str),
            decreases self.map.len() - i,
        {
            if str_eq(self.map[i].0.as_str(), k) {
                match &self.map[i].1 {
                    BpValue::Str(t) => {
                        return t.as_str();
                    },
                    _ => {},
                }
            }
            i = i + 1;
        }
        proof {
            let t = choose|t: String| self.has(k@, BpValue::Str(t));
            let m = choose|m: int| 0 <= m < self.map@.len() && #[trigger] self.map@[m].0@ == k@ && self.map@[m].1 == BpValue::Str(t);
            assert(self.map@[m].1 is Str);
        }
        ""
    }

    /// Removes property `k`, returning its value.
    pub fn remove(&mut self, k: &str) -> (r: Option<BpValue>)
        requires
            old(self).wf(),
        ensures
            final(self).wf(),
            final(self).view_map() == old(self).view_map().remove(k@),
            final(self).raw_block == old(self).raw_block,
            r is Some <==> old(self).view_map().dom().contains(k@),
            r matches Some(v) ==> value_view(v) == old(self).view_map()[k@],
    {
        proof {
            lemma_entries_map(self.map@);
        }
        let ghost old_map = self.map@;
        let i = match find_last_key(self, k) {
            Some(i) => i,
            None => {
                assert(self.view_map() =~= old(self).view_map().remove(k@));
                return None;
            },
        };
        let (_, v) = self.map.remove(i);
        proof {
            let new_map = self.map@;
            assert(new_map == old_map.remove(i as int));
            assert forall|a: int, b: int| 0 <= a < b < new_map.len() implies key_before(
                #[trigger] new_map[a].0@,
                #[trigger] new_map[b].0@,
            ) by {
                let a2 = if a < i { a } else { a + 1 };
                let b2 = if b < i { b } else { b + 1 };
                assert(new_map[a] == old_map[a2] && new_map[b] == old_map[b2]);
            }
            lemma_entries_map(new_map);
            let m_old = entries_map(old_map);
            let m_new = entries_map(new_map);
            assert forall|k2: Seq<char>| #[trigger] m_new.dom().contains(k2) <==> m_old.remove(k@).dom().contains(k2) by {
                if m_new.dom().contains(k2) {
                    let j = choose|j: int| 0 <= j < new_map.len() && #[trigger] new_map[j].0@ == k2;
                    let j2 = if j < i { j } else { j + 1 };
                    assert(new_map[j] == old_map[j2]);
                    if k2 == k@ {
                        assert(old_map[i as int].0@ == k@);
                        if j2 < i {
                            assert(key_before(old_map[j2].0@, old_map[i as int].0@));
                        } else {
                            assert(key_before(old_map[i as int].0@, old_map[j2].0@));
                        }
                        lemma_key_before_irreflexive(k@);
                    }
                }
                if m_old.remove(k@).dom().contains(k2) {
                    let j = choose|j: int| 0 <= j < old_map.len() && #[trigger] old_map[j].0@ == k2;
                    assert(j != i);
                    let j2 = if j < i { j } else { j - 1 };
                    assert(new_map[j2] == old_map[j]);
                }
            }
            assert forall|k2: Seq<char>| #[trigger] m_new.dom().contains(k2) implies m_new[k2] == m_old.remove(k@)[k2] by {
                let j = choose|j: int| 0 <= j < new_map.len() && #[trigger] new_map[j].0@ == k2;
                let j2 = if j < i { j } else { j + 1 };
                assert(new_map[j] == old_map[j2]);
            }
            assert(m_new =~= m_old.remove(k@));
        }
        Some(v)
    }

    /// The nested property map held by property `k`, which is added, empty, where `k` has no
    /// value.
    pub fn object(&mut self, k: &str) -> (r: &mut BpProperties)
        requires
            old(self).wf(),
            old(self).view_map().dom().contains(k@) ==> old(self).view_map()[k@] is Object,
        ensures
            old(self).view_map().dom().contains(k@) ==> value_view(BpValue::Object(*r)) == old(
                self,
            ).view_map()[k@],
            !old(self).view_map().dom().contains(k@) ==> value_view(BpValue::Object(*r)) == ValueView::Object(
                Map::empty(),
                None,
            ),
            final(self).wf(),
            final(self).view_map() == old(self).view_map().insert(k@, value_view(BpValue::Object(*final(r)))),
            final(self).raw_block == old(self).raw_block,
    {
        broadcast use lemma_entries_map_update;

        proof {
            lemma_entries_map(self.map@);
        }
        let had = find_last_key(self, k).is_some();
        if !had {
            self.set(k, BpValue::Object(BpProperties::new()));
        }
        proof {
            lemma_entries_map(self.map@);
        }
        let i = match find_last_key(self, k) {
            Some(i) => i,
            None => {
                return vstd::pervasive::unreached();
            },
        };
        assert(self.view_map()[k@] == value_view(self.map@[i as int].1));
        let entry = &mut self.map[i];
        match &mut entry.1 {
            BpValue::Object(p) => p,
            _ => vstd::pervasive::unreached(),
        }
    }

    pub fn new() -> (r: BpProperties)
        ensures
            r.wf(),
            r.view_map() == Map::<Seq<char>, ValueView>::empty(),
            r.map@.len() == 0,
            r.raw_block is None,
    {
        BpProperties { map: Vec::new(), raw_block: None }
    }

    /// Sets property `k` to `v`, replacing any earlier value of it.
    pub fn set(&mut self, k: &str, v: BpValue)
        requires
            old(self).wf(),
        ensures
            final(self).wf(),
            final(self).view_map() == old(self).view_map().insert(k@, value_view(v)),
            final(self).has(k@, v),
            forall|k2: Seq<char>, v2: BpValue|
                k2 != k@ ==> (final(self).has(k2, v2) <==> old(self).has(k2, v2)),
            final(self).raw_block == old(self).raw_block,
    {
        let mut p: usize = 0;
        while p < self.map.len() && key_before_exec(self.map[p].0.as_str(), k)
            invariant
                self.wf(),
                p <= self.map@.len(),
                forall|i: int| 0 <= i < p ==> key_before(#[trigger] self.map@[i].0@, k@),
            decreases self.map.len() - p,
        {
            p = p + 1;
        }
        let ghost old_map = self.map@;
        let replace = p < self.map.len() && str_eq(self.map[p].0.as_str(), k);
        if replace {
            self.map.remove(p);
        }
        let ghost mid = self.map@;
        let key = k.to_string();
        let ghost entry = (key, v);
        self.map.insert(p, (key, v));
        proof {
            let new_map = self.map@;
            assert(new_map == mid.insert(p as int, entry));
            if replace {
                assert(mid == old_map.remove(p as int));
            } else {
                assert(mid == old_map);
            }
            // Entries after the insertion point come after `k`.
            assert forall|i: int| p <= i < mid.len() implies key_before(k@, #[trigger] mid[i].0@) by {
                let j = if replace { i + 1 } else { i };
                assert(mid[i] == old_map[j]);
                if p < old_map.len() {
                    lemma_key_before_total(old_map[p as int].0@, k@);
                    if !replace {
                        assert(key_before(k@, old_map[p as int].0@));
                        if j > p {
                            lemma_key_before_transitive(k@, old_map[p as int].0@, old_map[j].0@);
                        }
                    } else {
                        assert(old_map[p as int].0@ == k@);
                    }
                }
            }
            assert forall|i: int, j: int| 0 <= i < j < new_map.len() implies key_before(
                #[trigger] new_map[i].0@,
                #[trigger] new_map[j].0@,
            ) by {
                if j < p {
                    assert(new_map[i] == old_map[i] && new_map[j] == old_map[j]);
                } else if i > p {
                    assert(new_map[i] == mid[i - 1] && new_map[j] == mid[j - 1]);
                    if replace {
                        assert(mid[i - 1] == old_map[i] && mid[j - 1] == old_map[j]);
                    }
                } else if i == p {
                    assert(new_map[j] == mid[j - 1]);
                } else {
                    assert(new_map[i] == old_map[i]);
                    if j == p {
                    } else {
                        assert(new_map[j] == mid[j - 1]);
                        lemma_key_before_transitive(new_map[i].0@, k@, new_map[j].0@);
                    }
                }
            }
            assert(new_map[p as int].0@ == k@ && new_map[p as int].1 == v);
            assert forall|k2: Seq<char>, v2: BpValue| k2 != k@ implies (self.has(k2, v2)
                <==> old(self).has(k2, v2)) by {
                if self.has(k2, v2) {
                    let i = choose|i: int| 0 <= i < new_map.len() && #[trigger] new_map[i].0@ == k2 && new_map[i].1 == v2;
                    if i < p {
                        assert(old_map[i] == new_map[i]);
                    } else {
                        assert(i != p);
                        if replace {
                            assert(old_map[i] == new_map[i]);
                        } else {
                            assert(old_map[i - 1] == new_map[i]);
                        }
                    }
                }
                if old(self).has(k2, v2) {
                    let i = choose|i: int| 0 <= i < old_map.len() && #[trigger] old_map[i].0@ == k2 && old_map[i].1 == v2;
                    if i < p {
                        assert(old_map[i] == new_map[i]);
                    } else if replace {
                        assert(i != p);
                        assert(old_map[i] == new_map[i]);
                    } else {
                        assert(old_map[i] == new_map[i + 1]);
                    }
                }
            }
            lemma_entries_map(old_map);
            lemma_entries_map(new_map);
            let m_old = entries_map(old_map);
            let m_new = entries_map(new_map);
            assert forall|k2: Seq<char>| #[trigger] m_new.dom().contains(k2) <==> m_old.insert(k@, value_view(v)).dom().contains(k2) by {
                if k2 != k@ {
                    if m_new.dom().contains(k2) {
                        let i = choose|i: int| 0 <= i < new_map.len() && #[trigger] new_map[i].0@ == k2;
                        assert(self.has(k2, new_map[i].1));
                        assert(old(self).has(k2, new_map[i].1));
                    }
                    if m_old.dom().contains(k2) {
                        let i = choose|i: int| 0 <= i < old_map.len() && #[trigger] old_map[i].0@ == k2;
                        assert(old(self).has(k2, old_map[i].1));
                        assert(self.has(k2, old_map[i].1));
                    }
                }
            }
            assert forall|k2: Seq<char>| #[trigger] m_new.dom().contains(k2) implies m_new[k2] == m_old.insert(k@, value_view(v))[k2] by {
                if k2 == k@ {
                    assert(new_map[p as int].0@ == k@);
                } else {
                    let i = choose|i: int| 0 <= i < new_map.len() && #[trigger] new_map[i].0@ == k2;
                    assert(self.has(k2, new_map[i].1));
                    assert(old(self).has(k2, new_map[i].1));
                    let j = choose|j: int| 0 <= j < old_map.len() && #[trigger] old_map[j].0@ == k2 && old_map[j].1 == new_map[i].1;
                }
            }
            assert(m_new =~= m_old.insert(k@, value_view(v)));
        }
    }
}

} // verus!
