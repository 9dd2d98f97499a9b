//! In-memory configuration documents.
//!
//! A [`Configuration`] is a mapping from top-level keys to parsed document
//! nodes. Dotted paths address nothing below the top level: a multi-segment
//! path resolves to "absent", and `set` stores under the last segment of the
//! path it is given.

use vstd::prelude::*;

verus! {

broadcast use vstd::std_specs::vec::axiom_vec_index_decreases;

/// One parsed node of a configuration document: the scalar, sequence and
/// mapping shapes that the runtime reads. `Other` stands for any node the
/// runtime never interprets (for example a fractional number); every typed
/// accessor treats such a node as absent.
pub enum Value {
    Null,
    Bool(bool),
    Int(i64),
    Str(String),
    List(Vec<Value>),
    Mapping(Vec<(String, Value)>),
    Other,
}

/// The mathematical shape of a `Value`: the same tree over `Seq` instead of
/// `Vec` and `String`.
#[verifier::ext_equal]
pub enum SpecValue {
    Null,
    Bool(bool),
    Int(i64),
    Str(Seq<char>),
    List(Seq<SpecValue>),
    Mapping(Seq<(Seq<char>, SpecValue)>),
    Other,
}

impl DeepView for Value {
    type V = SpecValue;

    open spec fn deep_view(&self) -> SpecValue
        decreases self,
    {
        match self {
            Value::Null => SpecValue::Null,
            Value::Bool(b) => SpecValue::Bool(*b),
            Value::Int(i) => SpecValue::Int(*i),
            Value::Str(s) => SpecValue::Str(s@),
            Value::List(l) => SpecValue::List(
                Seq::new(
                    l@.len(),
                    |i: int|
                        if 0 <= i < l@.len() {
                            l@[i].deep_view()
                        } else {
                            SpecValue::Null
                        },
                ),
            ),
            Value::Mapping(m) => SpecValue::Mapping(
                Seq::new(
                    m@.len(),
                    |i: int|
                        if 0 <= i < m@.len() {
                            (m@[i].0@, m@[i].1.deep_view())
                        } else {
                            (Seq::empty(), SpecValue::Null)
                        },
                ),
            ),
            Value::Other => SpecValue::Other,
        }
    }
}

impl Value {
    /// Structure-preserving copy: the copy has the same mathematical shape as
    /// the original.
    #[verifier::loop_isolation(false)]
    pub fn deep_clone(&self) -> (r: Value)
        ensures
            r.deep_view() == self.deep_view(),
        decreases self,
    {
        match self {
            Value::Null => Value::Null,
            Value::Bool(b) => Value::Bool(*b),
            Value::Int(i) => Value::Int(*i),
            Value::Str(s) => Value::Str(s.clone()),
            Value::List(l) => {
                let mut out: Vec<Value> = Vec::new();
                let mut i: usize = 0;
                while i < l.len()
                    invariant
                        i <= l.len(),
                        out@.len() == i as nat,
                        forall|j: int| 0 <= j < i ==> out@[j].deep_view() == l@[j].deep_view(),
                    decreases l@.len() - i,
                {
                    proof {
                        let v = *self;
                        let vs = v->List_0@;
                        assert(decreases_to!(v => v->List_0));
                        assert(decreases_to!(v->List_0 => v->List_0@));
                        assert(decreases_to!(vs => vs[i as int]));
                        assert(decreases_to!(*self => l@[i as int]));
                    }
                    out.push(l[i].deep_clone());
                    i += 1;
                }
                proof {
                    assert(*self == Value::List(*l));
                    let a = Value::List(out).deep_view();
                    let b = self.deep_view();
                    assert(a->List_0 =~= b->List_0);
                    assert(a =~= b);
                }
                Value::List(out)
            },
            Value::Mapping(m) => {
                let mut out: Vec<(String, Value)> = Vec::new();
                let mut i: usize = 0;
                while i < m.len()
                    invariant
                        i <= m.len(),
                        out@.len() == i as nat,
                        forall|j: int| 0 <= j < i ==> out@[j].0@ == m@[j].0@
                            && out@[j].1.deep_view() == m@[j].1.deep_view(),
                    decreases m@.len() - i,
                {
                    proof {
                        let v = *self;
                        let vs = v->Mapping_0@;
                        let pair = vs[i as int];
                        assert(decreases_to!(v => v->Mapping_0));
                        assert(decreases_to!(v->Mapping_0 => v->Mapping_0@));
                        assert(decreases_to!(vs => vs[i as int]));
                        assert(decreases_to!(pair => pair.1));
                        assert(decreases_to!(*self => m@[i as int].1));
                    }
                    let entry = &m[i];
                    out.push((entry.0.clone(), entry.1.deep_clone()));
                    i += 1;
                }
                proof {
                    assert(*self == Value::Mapping(*m));
                    let a = Value::Mapping(out).deep_view();
                    let b = self.deep_view();
                    assert(a->Mapping_0 =~= b->Mapping_0);
                    assert(a =~= b);
                }
                Value::Mapping(out)
            },
            Value::Other => Value::Other,
        }
    }
}

impl Clone for Value {
    fn clone(&self) -> (r: Value)
        ensures
            r.deep_view() == self.deep_view(),
    {
        self.deep_clone()
    }
}

/// The value bound to `key` in `s`, reading bindings front to back.
pub open spec fn spec_lookup(s: Seq<(String, Value)>, key: Seq<char>) -> Option<Value>
    decreases s.len(),
{
    if s.len() == 0 {
        None
    } else if s[0].0@ == key {
        Some(s[0].1)
    } else {
        spec_lookup(s.drop_first(), key)
    }
}

/// `spec_lookup`, reduced to the mathematical shape of the value.
pub open spec fn spec_lookup_deep(s: Seq<(String, Value)>, key: Seq<char>) -> Option<SpecValue> {
    match spec_lookup(s, key) {
        Some(v) => Some(v.deep_view()),
        None => None,
    }
}

/// `s` with its first binding for `key` replaced by `value`, or with
/// `(key, value)` appended when no binding exists.
pub open spec fn spec_store(s: Seq<(String, Value)>, key: String, value: Value) -> Seq<
    (String, Value),
>
    decreases s.len(),
{
    if s.len() == 0 {
        seq![(key, value)]
    } else if s[0].0@ == key@ {
        seq![(key, value)] + s.drop_first()
    } else {
        seq![s[0]] + spec_store(s.drop_first(), key, value)
    }
}

/// The value the last binding of `key` in `s` carries, as a mathematical
/// shape; this is what building a mapping entry by entry leaves behind.
pub open spec fn spec_last_binding(s: Seq<(String, Value)>, key: Seq<char>) -> Option<SpecValue>
    decreases s.len(),
{
    if s.len() == 0 {
        None
    } else if s.last().0@ == key {
        Some(s.last().1.deep_view())
    } else {
        spec_last_binding(s.drop_last(), key)
    }
}

/// Index of the last `'.'` in `p`, or `-1` when `p` has none.
pub open spec fn spec_last_dot(p: Seq<char>) -> int
    decreases p.len(),
{
    if p.len() == 0 {
        -1
    } else if p.last() == '.' {
        p.len() - 1
    } else {
        spec_last_dot(p.drop_last())
    }
}

/// A path addresses a top-level key exactly when it has no `'.'`.
pub open spec fn spec_is_single_segment(p: Seq<char>) -> bool {
    spec_last_dot(p) == -1
}

/// The part of `p` after its last `'.'`; all of `p` when it has none.
pub open spec fn spec_last_segment(p: Seq<char>) -> Seq<char> {
    p.subrange(spec_last_dot(p) + 1, p.len() as int)
}

pub proof fn lemma_last_dot_bounds(p: Seq<char>)
    ensures
        -1 <= spec_last_dot(p) < p.len(),
    decreases p.len(),
{
    if p.len() > 0 && p.last() != '.' {
        lemma_last_dot_bounds(p.drop_last());
    }
}

proof fn lemma_lookup_first(s: Seq<(String, Value)>, key: Seq<char>, i: int)
    requires
        0 <= i < s.len(),
        s[i].0@ == key,
        forall|j: int| 0 <= j < i ==> s[j].0@ != key,
    ensures
        spec_lookup(s, key) == Some(s[i].1),
    decreases i,
{
    if i > 0 {
        lemma_lookup_first(s.drop_first(), key, i - 1);
    }
}

proof fn lemma_lookup_absent(s: Seq<(String, Value)>, key: Seq<char>)
    requires
        forall|j: int| 0 <= j < s.len() ==> s[j].0@ != key,
    ensures
        spec_lookup(s, key) is None,
    decreases s.len(),
{
    if s.len() > 0 {
        lemma_lookup_absent(s.drop_first(), key);
    }
}

proof fn lemma_store_at(s: Seq<(String, Value)>, key: String, value: Value, i: int)
    requires
        0 <= i < s.len(),
        s[i].0@ == key@,
        forall|j: int| 0 <= j < i ==> s[j].0@ != key@,
    ensures
        spec_store(s, key, value) =~= s.update(i, (key, value)),
    decreases i,
{
    if i > 0 {
        lemma_store_at(s.drop_first(), key, value, i - 1);
    }
}

proof fn lemma_store_append(s: Seq<(String, Value)>, key: String, value: Value)
    requires
        forall|j: int| 0 <= j < s.len() ==> s[j].0@ != key@,
    ensures
        spec_store(s, key, value) =~= s.push((key, value)),
    decreases s.len(),
{
    if s.len() > 0 {
        lemma_store_append(s.drop_first(), key, value);
    }
}

/// Storing under `key` binds exactly `key` and leaves every other key's
/// binding as it was.
pub proof fn lemma_lookup_store(s: Seq<(String, Value)>, key: String, value: Value, q: Seq<char>)
    ensures
        spec_lookup(spec_store(s, key, value), q) == if q == key@ {
            Some(value)
        } else {
            spec_lookup(s, q)
        },
    decreases s.len(),
{
    let st = spec_store(s, key, value);
    if s.len() == 0 {
        assert(st =~= seq![(key, value)]);
        assert(st[0] == (key, value));
        assert(st.drop_first() =~= Seq::<(String, Value)>::empty());
        if q == key@ {
            assert(spec_lookup(st, q) == Some(value));
        } else {
            assert(spec_lookup(Seq::<(String, Value)>::empty(), q) is None);
            assert(spec_lookup(st, q) is None);
        }
    } else if s[0].0@ == key@ {
        assert(st.drop_first() =~= s.drop_first());
        assert(st[0] == (key, value));
        if q == key@ {
            assert(spec_lookup(st, q) == Some(value));
        } else {
            assert(spec_lookup(st, q) == spec_lookup(s.drop_first(), q));
            assert(spec_lookup(s, q) == spec_lookup(s.drop_first(), q));
        }
    } else {
        lemma_lookup_store(s.drop_first(), key, value, q);
        assert(st.drop_first() =~= spec_store(s.drop_first(), key, value));
        assert(st[0] == s[0]);
        if q == s[0].0@ {
            assert(spec_lookup(st, q) == Some(s[0].1));
            assert(spec_lookup(s, q) == Some(s[0].1));
        } else {
            assert(spec_lookup(st, q) == spec_lookup(spec_store(s.drop_first(), key, value), q));
            assert(spec_lookup(s, q) == spec_lookup(s.drop_first(), q));
        }
    }
}

/// The string items of a list of values, in order.
pub open spec fn spec_str_items(s: Seq<Value>) -> Seq<Seq<char>>
    decreases s.len(),
{
    if s.len() == 0 {
        Seq::empty()
    } else {
        let rest = spec_str_items(s.drop_last());
        match s.last() {
            Value::Str(t) => rest.push(t@),
            _ => rest,
        }
    }
}

/// The views of a sequence of strings.
pub open spec fn string_views(s: Seq<String>) -> Seq<Seq<char>> {
    s.map_values(|x: String| x@)
}

/// A plugin configuration: top-level keys bound to parsed document nodes,
/// read front to back (a key's first binding is its visible one).
pub struct Configuration {
    pub data: Vec<(String, Value)>,
}

impl Configuration {
    /// Create a new empty configuration.
    pub fn new() -> (r: Self)
        ensures
            r.data@ == Seq::<(String, Value)>::empty(),
    {
        Configuration { data: Vec::new() }
    }

    /// The binding of a path in this configuration: its top-level binding for
    /// a single-segment path, absent for any multi-segment path.
    pub open spec fn spec_get(&self, path: Seq<char>) -> Option<Value> {
        if spec_is_single_segment(path) {
            spec_lookup(self.data@, path)
        } else {
            None
        }
    }

    pub open spec fn spec_get_string(&self, path: Seq<char>) -> Option<Seq<char>> {
        match self.spec_get(path) {
            Some(Value::Str(s)) => Some(s@),
            _ => None,
        }
    }

    pub open spec fn spec_get_int(&self, path: Seq<char>) -> Option<i64> {
        match self.spec_get(path) {
            Some(Value::Int(i)) => Some(i),
            _ => None,
        }
    }

    pub open spec fn spec_get_bool(&self, path: Seq<char>) -> Option<bool> {
        match self.spec_get(path) {
            Some(Value::Bool(b)) => Some(b),
            _ => None,
        }
    }

    pub open spec fn spec_get_string_list(&self, path: Seq<char>) -> Option<Seq<Seq<char>>> {
        match self.spec_get(path) {
            Some(Value::List(l)) => Some(spec_str_items(l@)),
            _ => None,
        }
    }

    /// Index of the last `'.'` of `path`, or none.
    fn find_last_dot(path: &str) -> (r: Option<usize>)
        ensures
            match r {
                Some(i) => spec_last_dot(path@) == i as int,
                None => spec_last_dot(path@) == -1,
            },
    {
        let n = path.unicode_len();
        let mut i: usize = 0;
        let mut last: Option<usize> = None;
        while i < n
            invariant
                i <= n,
                n as nat == path@.len(),
                match last {
                    Some(k) => spec_last_dot(path@.take(i as int)) == k as int,
                    None => spec_last_dot(path@.take(i as int)) == -1,
                },
            decreases n - i,
        {
            proof {
                assert(path@.take(i + 1 as int).drop_last() =~= path@.take(i as int));
                assert(path@.take(i + 1 as int).last() == path@[i as int]);
            }
            if path.get_char(i) == '.' {
                last = Some(i);
            }
            i += 1;
        }
        proof {
            assert(path@.take(n as int) =~= path@);
        }
        last
    }

    /// A raw value: the binding of a top-level key. Multi-segment paths are
    /// not resolved and read as absent.
    pub fn get_value(&self, path: &str) -> (r: Option<&Value>)
        ensures
            match r {
                Some(v) => self.spec_get(path@) == Some(*v),
                None => self.spec_get(path@) is None,
            },
    {
        if Self::find_last_dot(path).is_some() {
            // Nested lookup below the top level is not resolved.
            return None;
        }
        let key: String = path.to_owned();
        let mut j: usize = 0;
        while j < self.data.len()
            invariant
                j <= self.data@.len(),
                key@ == path@,
                spec_is_single_segment(path@),
                forall|t: int| 0 <= t < j ==> self.data@[t].0@ != path@,
            decreases self.data@.len() - j,
        {
            if self.data[j].0 == key {
                proof {
                    lemma_lookup_first(self.data@, path@, j as int);
                    assert(spec_is_single_segment(path@));
                    assert(self.spec_get(path@) == Some(self.data@[j as int].1));
                }
                return Some(&self.data[j].1);
            }
            j += 1;
        }
        proof {
            lemma_lookup_absent(self.data@, path@);
        }
        None
    }

    /// Get a string value from the configuration.
    pub fn get_string(&self, path: &str) -> (r: Option<String>)
        ensures
            match r {
                Some(s) => self.spec_get_string(path@) == Some(s@),
                None => self.spec_get_string(path@) is None,
            },
    {
        match self.get_value(path) {
            Some(Value::Str(s)) => Some(s.clone()),
            _ => None,
        }
    }

    /// Get a string value with a default.
    pub fn get_string_or(&self, path: &str, default: &str) -> (r: String)
        ensures
            match self.spec_get_string(path@) {
                Some(s) => r@ == s,
                None => r@ == default@,
            },
    {
        match self.get_string(path) {
            Some(s) => s,
            None => default.to_owned(),
        }
    }

    /// Get an integer value from the configuration.
    pub fn get_int(&self, path: &str) -> (r: Option<i64>)
        ensures
            r == self.spec_get_int(path@),
    {
        match self.get_value(path) {
            Some(Value::Int(i)) => Some(*i),
            _ => None,
        }
    }

    /// Get an integer value with a default.
    pub fn get_int_or(&self, path: &str, default: i64) -> (r: i64)
        ensures
            r == match self.spec_get_int(path@) {
                Some(i) => i,
                None => default,
            },
    {
        match self.get_int(path) {
            Some(i) => i,
            None => default,
        }
    }

    /// Get a boolean value from the configuration.
    pub fn get_bool(&self, path: &str) -> (r: Option<bool>)
        ensures
            r == self.spec_get_bool(path@),
    {
        match self.get_value(path) {
            Some(Value::Bool(b)) => Some(*b),
            _ => None,
        }
    }

    /// Get a boolean value with a default.
    pub fn get_bool_or(&self, path: &str, default: bool) -> (r: bool)
        ensures
            r == match self.spec_get_bool(path@) {
                Some(b) => b,
                None => default,
            },
    {
        match self.get_bool(path) {
            Some(b) => b,
            None => default,
        }
    }

    /// Get a list of strings: the string items of a list value, in order,
    /// with items of any other shape left out.
    pub fn get_string_list(&self, path: &str) -> (r: Option<Vec<String>>)
        ensures
            match r {
                Some(xs) => self.spec_get_string_list(path@) == Some(string_views(xs@)),
                None => self.spec_get_string_list(path@) is None,
            },
    {
        match self.get_value(path) {
            Some(Value::List(l)) => {
                let mut out: Vec<String> = Vec::new();
                let mut i: usize = 0;
                while i < l.len()
                    invariant
                        i <= l@.len(),
                        string_views(out@) == spec_str_items(l@.take(i as int)),
                    decreases l@.len() - i,
                {
                    proof {
                        assert(l@.take(i + 1 as int).drop_last() =~= l@.take(i as int));
                        assert(l@.take(i + 1 as int).last() == l@[i as int]);
                    }
                    match &l[i] {
                        Value::Str(s) => {
                            let ghost pre = out@;
                            out.push(s.clone());
                            proof {
                                assert(string_views(out@) =~= string_views(pre).push(s@));
                            }
                        },
                        _ => {},
                    }
                    i += 1;
                }
                proof {
                    assert(l@.take(l@.len() as int) =~= l@);
                }
                Some(out)
            },
            _ => None,
        }
    }

    /// Replace the first binding of `key`, or append one.
    fn store(&mut self, key: String, value: Value)
        ensures
            final(self).data@ == spec_store(old(self).data@, key, value),
    {
        let mut j: usize = 0;
        while j < self.data.len()
            invariant
                j <= self.data@.len(),
                self.data@ == old(self).data@,
                forall|t: int| 0 <= t < j ==> self.data@[t].0@ != key@,
            decreases self.data@.len() - j,
        {
            if self.data[j].0 == key {
                proof {
                    lemma_store_at(self.data@, key, value, j as int);
                }
                self.data.set(j, (key, value));
                return ;
            }
            j += 1;
        }
        proof {
            lemma_store_append(self.data@, key, value);
        }
        self.data.push((key, value));
    }

    /// Set a value in the configuration. The binding is made under the last
    /// dot-separated segment of `path`, so only a single-segment path is read
    /// back by the typed accessors.
    pub fn set(&mut self, path: &str, value: Value)
        ensures
            spec_lookup(final(self).data@, spec_last_segment(path@)) == Some(value),
            forall|q: Seq<char>|
                q != spec_last_segment(path@) ==> spec_lookup(final(self).data@, q)
                    == spec_lookup(old(self).data@, q),
    {
        proof {
            lemma_last_dot_bounds(path@);
        }
        let n = path.unicode_len();
        let key: String = match Self::find_last_dot(path) {
            Some(i) => path.substring_char(i + 1, n).to_owned(),
            None => {
                proof {
                    assert(path@.subrange(0, n as int) =~= path@);
                }
                path.to_owned()
            },
        };
        assert(key@ == spec_last_segment(path@));
        self.store(key, value);
        proof {
            assert forall|q: Seq<char>| true implies spec_lookup(
                final(self).data@,
                q,
            ) == if q == spec_last_segment(path@) {
                Some(value)
            } else {
                spec_lookup(old(self).data@, q)
            } by {
                lemma_lookup_store(old(self).data@, key, value, q);
            }
        }
    }

    /// Build a configuration from parsed top-level entries, later bindings of
    /// a key overriding earlier ones.
    pub fn from_entries(entries: &Vec<(String, Value)>) -> (r: Configuration)
        ensures
            forall|q: Seq<char>|
                #[trigger] spec_lookup_deep(r.data@, q) == spec_last_binding(entries@, q),
    {
        let mut c = Configuration::new();
        let mut i: usize = 0;
        while i < entries.len()
            invariant
                i <= entries@.len(),
                forall|q: Seq<char>|
                    #[trigger] spec_lookup_deep(c.data@, q) == spec_last_binding(
                        entries@.take(i as int),
                        q,
                    ),
            decreases entries@.len() - i,
        {
            let entry = &entries[i];
            let key = entry.0.clone();
            let value = entry.1.deep_clone();
            proof {
                assert(entries@.take(i + 1 as int).drop_last() =~= entries@.take(i as int));
                assert(entries@.take(i + 1 as int).last() == entries@[i as int]);
            }
            let ghost pre = c.data@;
            c.store(key, value);
            proof {
                assert forall|q: Seq<char>| true implies #[trigger] spec_lookup_deep(c.data@, q)
                    == spec_last_binding(entries@.take(i + 1 as int), q) by {
                    lemma_lookup_store(pre, key, value, q);
                    assert(spec_lookup_deep(pre, q) == spec_last_binding(
                        entries@.take(i as int),
                        q,
                    ));
                }
            }
            i += 1;
        }
        proof {
            assert(entries@.take(entries@.len() as int) =~= entries@);
        }
        c
    }

    /// Get a nested configuration section.
    pub fn get_section(&self, path: &str) -> (r: Option<Configuration>)
        ensures
            match r {
                Some(c) => self.spec_get(path@) matches Some(v) && v is Mapping && forall|
                    q: Seq<char>,
                |
                    #[trigger] spec_lookup_deep(c.data@, q) == spec_last_binding(v->Mapping_0@, q),
                None => !(self.spec_get(path@) matches Some(v) && v is Mapping),
            },
    {
        match self.get_value(path) {
            Some(Value::Mapping(m)) => Some(Self::from_entries(m)),
            _ => None,
        }
    }
}

impl Default for Configuration {
    /// An empty configuration.
    fn default() -> (r: Self)
        ensures
            r.data@.len() == 0,
    {
        Configuration::new()
    }
}

/// Law: after `set(path, value)` — whose contract binds `value` to the last
/// segment of `path` — reading the same single-segment path gives back
/// exactly `value`, through `get_value` and through the matching typed
/// accessor; and any multi-segment path still reads as absent, no matter
/// what was stored before.
pub proof fn lemma_set_get_roundtrip(post: Configuration, path: Seq<char>, value: Value)
    requires
        spec_is_single_segment(path),
        spec_lookup(post.data@, spec_last_segment(path)) == Some(value),
    ensures
        post.spec_get(path) == Some(value),
        value matches Value::Str(s) ==> post.spec_get_string(path) == Some(s@),
        value matches Value::Int(i) ==> post.spec_get_int(path) == Some(i),
        value matches Value::Bool(b) ==> post.spec_get_bool(path) == Some(b),
        value matches Value::List(l) ==> post.spec_get_string_list(path) == Some(
            spec_str_items(l@),
        ),
        forall|c: Configuration, p: Seq<char>|
            !spec_is_single_segment(p) ==> #[trigger] c.spec_get(p) is None,
{
    assert(spec_last_segment(path) =~= path);
}

} // verus!
