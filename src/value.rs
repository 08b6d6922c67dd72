//! The document value, the model that contracts speak of, and the tags of values.
use vstd::prelude::*;

use crate::resolver::{find_entry, lemma_found_entry};

verus! {

/// A configuration document, or a node inside one.
///
/// A float is held as its IEEE-754 binary64 bit pattern, a datetime as its text. A table is a
/// list of entries; where a key occurs twice the first entry is the one that counts, and every
/// operation of this crate keeps keys unique.
#[derive(Debug)]
pub enum Value {
    String(String),
    Integer(i64),
    Float(u64),
    Boolean(bool),
    Datetime(String),
    Array(Vec<Value>),
    Table(Vec<(String, Value)>),
}

/// The mathematical content of a `Value`: what a contract compares.
///
/// Tables are maps, so the order of their entries does not count.
pub enum Node {
    String(Seq<char>),
    Integer(i64),
    Float(u64),
    Boolean(bool),
    Datetime(Seq<char>),
    Array(Seq<Node>),
    Table(Map<Seq<char>, Node>),
}

/// The tag of a value.
#[derive(Clone, Copy, Debug, PartialEq, Eq, Structural)]
pub enum Type {
    String,
    Integer,
    Float,
    Boolean,
    Datetime,
    Array,
    Table,
}

pub open spec fn model(v: Value) -> Node
    decreases v,
{
    match v {
        Value::String(s) => Node::String(s@),
        Value::Integer(i) => Node::Integer(i),
        Value::Float(f) => Node::Float(f),
        Value::Boolean(b) => Node::Boolean(b),
        Value::Datetime(d) => Node::Datetime(d@),
        Value::Array(a) => Node::Array(model_items(a@)),
        Value::Table(t) => Node::Table(model_entries(t@)),
    }
}

pub open spec fn model_items(s: Seq<Value>) -> Seq<Node>
    decreases s,
{
    if s.len() == 0 {
        Seq::empty()
    } else {
        model_items(s.drop_last()).push(model(s.last()))
    }
}

/// The map that a list of entries stands for: the first entry with a key gives its value.
pub open spec fn model_entries(s: Seq<(String, Value)>) -> Map<Seq<char>, Node>
    decreases s,
{
    if s.len() == 0 {
        Map::empty()
    } else {
        model_entries(s.drop_first()).insert(s[0].0@, model(s[0].1))
    }
}

pub open spec fn model_opt(o: Option<Value>) -> Option<Node> {
    match o {
        Some(v) => Some(model(v)),
        None => None,
    }
}

pub open spec fn node_type(n: Node) -> Type {
    match n {
        Node::String(_) => Type::String,
        Node::Integer(_) => Type::Integer,
        Node::Float(_) => Type::Float,
        Node::Boolean(_) => Type::Boolean,
        Node::Datetime(_) => Type::Datetime,
        Node::Array(_) => Type::Array,
        Node::Table(_) => Type::Table,
    }
}

pub open spec fn type_of(v: Value) -> Type {
    node_type(model(v))
}

pub open spec fn tag_name(t: Type) -> Seq<char> {
    match t {
        Type::String => "String"@,
        Type::Integer => "Integer"@,
        Type::Float => "Float"@,
        Type::Boolean => "Boolean"@,
        Type::Datetime => "Datetime"@,
        Type::Array => "Array"@,
        Type::Table => "Table"@,
    }
}

/// An empty table.
pub open spec fn empty_table() -> Node {
    Node::Table(Map::empty())
}

/// An empty array.
pub open spec fn empty_array() -> Node {
    Node::Array(Seq::empty())
}

pub proof fn lemma_model_items(s: Seq<Value>)
    ensures
        model_items(s).len() == s.len(),
        forall|i: int| 0 <= i < s.len() ==> #[trigger] model_items(s)[i] == model(s[i]),
    decreases s.len(),
{
    if s.len() > 0 {
        lemma_model_items(s.drop_last());
    }
}

/// Two lists of values whose items have the same models stand for the same sequence.
pub proof fn lemma_model_items_pointwise(s1: Seq<Value>, s2: Seq<Value>)
    requires
        s1.len() == s2.len(),
        forall|i: int| 0 <= i < s1.len() ==> model(#[trigger] s1[i]) == model(s2[i]),
    ensures
        model_items(s1) == model_items(s2),
{
    lemma_model_items(s1);
    lemma_model_items(s2);
    assert(model_items(s1) =~= model_items(s2));
}

pub proof fn lemma_model_entries_keys(s: Seq<(String, Value)>, k: Seq<char>)
    ensures
        model_entries(s).contains_key(k) <==> exists|i: int| 0 <= i < s.len() && (#[trigger] s[i]).0@ == k,
    decreases s.len(),
{
    if s.len() > 0 {
        lemma_model_entries_keys(s.drop_first(), k);
        if model_entries(s).contains_key(k) && s[0].0@ != k {
            let i = choose|i: int| 0 <= i < s.len() - 1 && (#[trigger] s.drop_first()[i]).0@ == k;
            assert(s[i + 1] == s.drop_first()[i]);
        }
        if exists|i: int| 0 <= i < s.len() && (#[trigger] s[i]).0@ == k {
            let i = choose|i: int| 0 <= i < s.len() && (#[trigger] s[i]).0@ == k;
            if i > 0 {
                assert(s.drop_first()[i - 1] == s[i]);
            }
        }
    }
}

/// The first entry with key `k` gives the value of `k`.
pub proof fn lemma_model_entries_first(s: Seq<(String, Value)>, j: int)
    requires
        0 <= j < s.len(),
        forall|i: int| 0 <= i < j ==> (#[trigger] s[i]).0@ != s[j].0@,
    ensures
        model_entries(s).contains_key(s[j].0@),
        model_entries(s)[s[j].0@] == model(s[j].1),
    decreases j,
{
    if j > 0 {
        assert forall|i: int| 0 <= i < j - 1 implies (#[trigger] s.drop_first()[i]).0@ != s.drop_first()[j - 1].0@ by {
            assert(s.drop_first()[i] == s[i + 1]);
        }
        lemma_model_entries_first(s.drop_first(), j - 1);
        assert(s[0].0@ != s[j].0@);
    }
}

/// Replacing the value of the first entry with key `k` replaces the value of `k`.
pub proof fn lemma_model_entries_update(s: Seq<(String, Value)>, j: int, e: (String, Value))
    requires
        0 <= j < s.len(),
        forall|i: int| 0 <= i < j ==> (#[trigger] s[i]).0@ != s[j].0@,
        e.0@ == s[j].0@,
    ensures
        model_entries(s.update(j, e)) == model_entries(s).insert(s[j].0@, model(e.1)),
    decreases j,
{
    let t = s.update(j, e);
    if j == 0 {
        assert(t.drop_first() =~= s.drop_first());
        assert(model_entries(t) =~= model_entries(s).insert(s[j].0@, model(e.1)));
    } else {
        assert forall|i: int| 0 <= i < j - 1 implies (#[trigger] s.drop_first()[i]).0@ != s.drop_first()[j - 1].0@ by {
            assert(s.drop_first()[i] == s[i + 1]);
        }
        lemma_model_entries_update(s.drop_first(), j - 1, e);
        assert(t.drop_first() =~= s.drop_first().update(j - 1, e));
        assert(s[0].0@ != s[j].0@);
        assert(model_entries(t) =~= model_entries(s).insert(s[j].0@, model(e.1)));
    }
}

/// `lemma_model_entries_update`, for every new entry at once.
pub proof fn lemma_model_entries_update_any(s: Seq<(String, Value)>, j: int)
    requires
        0 <= j < s.len(),
        forall|i: int| 0 <= i < j ==> (#[trigger] s[i]).0@ != s[j].0@,
    ensures
        forall|e: (String, Value)| e.0@ == s[j].0@ ==> model_entries(#[trigger] s.update(j, e))
            == model_entries(s).insert(s[j].0@, model(e.1)),
{
    assert forall|e: (String, Value)| e.0@ == s[j].0@ implies model_entries(#[trigger] s.update(j, e))
        == model_entries(s).insert(s[j].0@, model(e.1)) by {
        lemma_model_entries_update(s, j, e);
    }
}

/// Replacing one item of a list replaces the model of that item.
pub proof fn lemma_model_items_update_any(s: Seq<Value>, j: int)
    requires
        0 <= j < s.len(),
    ensures
        forall|c: Value| model_items(#[trigger] s.update(j, c)) == model_items(s).update(j, model(c)),
{
    assert forall|c: Value| model_items(#[trigger] s.update(j, c)) == model_items(s).update(j, model(c)) by {
        lemma_model_items(s);
        lemma_model_items(s.update(j, c));
        assert(model_items(s.update(j, c)) =~= model_items(s).update(j, model(c)));
    }
}

/// Appending an entry with a new key adds that key.
pub proof fn lemma_model_entries_push(s: Seq<(String, Value)>, e: (String, Value))
    requires
        !model_entries(s).contains_key(e.0@),
    ensures
        model_entries(s.push(e)) == model_entries(s).insert(e.0@, model(e.1)),
    decreases s.len(),
{
    if s.len() == 0 {
        assert(s.push(e).drop_first() =~= Seq::<(String, Value)>::empty());
        assert(s.push(e)[0] == e);
        assert(model_entries(s.push(e).drop_first()) == Map::<Seq<char>, Node>::empty());
        assert(model_entries(s.push(e)) =~= model_entries(s).insert(e.0@, model(e.1)));
    } else {
        assert(s.push(e).drop_first() =~= s.drop_first().push(e));
        assert(s.push(e)[0] == s[0]);
        assert(!model_entries(s.drop_first()).contains_key(e.0@));
        lemma_model_entries_push(s.drop_first(), e);
        assert(s[0].0@ != e.0@);
        assert(model_entries(s.push(e)) == model_entries(s.drop_first().push(e)).insert(s[0].0@, model(s[0].1)));
        assert(model_entries(s.push(e)) =~= model_entries(s).insert(e.0@, model(e.1)));
    }
}

/// Two lists of entries with the same keys and values of the same models stand for one map.
pub proof fn lemma_model_entries_pointwise(s1: Seq<(String, Value)>, s2: Seq<(String, Value)>)
    requires
        s1.len() == s2.len(),
        forall|i: int| 0 <= i < s1.len() ==> (#[trigger] s1[i]).0@ == s2[i].0@ && model(s1[i].1) == model(s2[i].1),
    ensures
        model_entries(s1) == model_entries(s2),
    decreases s1.len(),
{
    if s1.len() > 0 {
        assert forall|i: int| 0 <= i < s1.len() - 1 implies (#[trigger] s1.drop_first()[i]).0@ == s2.drop_first()[i].0@
            && model(s1.drop_first()[i].1) == model(s2.drop_first()[i].1) by {
            assert(s1.drop_first()[i] == s1[i + 1]);
            assert(s2.drop_first()[i] == s2[i + 1]);
        }
        lemma_model_entries_pointwise(s1.drop_first(), s2.drop_first());
        assert(s1[0].0@ == s2[0].0@);
    }
}

impl Type {
    /// Whether `v` carries this tag.
    pub fn matches(&self, v: &Value) -> (r: bool)
        ensures
            r == (type_of(*v) == *self),
    {
        match (self, v) {
            (Type::String, Value::String(_))
            | (Type::Integer, Value::Integer(_))
            | (Type::Float, Value::Float(_))
            | (Type::Boolean, Value::Boolean(_))
            | (Type::Datetime, Value::Datetime(_))
            | (Type::Array, Value::Array(_))
            | (Type::Table, Value::Table(_)) => true,
            _ => false,
        }
    }

    /// The name of this tag.
    pub fn name(&self) -> (r: &'static str)
        ensures
            r@ == tag_name(*self),
    {
        match self {
            Type::Array => "Array",
            Type::Boolean => "Boolean",
            Type::Datetime => "Datetime",
            Type::Float => "Float",
            Type::Integer => "Integer",
            Type::String => "String",
            Type::Table => "Table",
        }
    }
}

/// The tag of `v`.
pub fn type_of_val(v: &Value) -> (r: Type)
    ensures
        r == type_of(*v),
{
    match v {
        Value::String(_) => Type::String,
        Value::Integer(_) => Type::Integer,
        Value::Float(_) => Type::Float,
        Value::Boolean(_) => Type::Boolean,
        Value::Datetime(_) => Type::Datetime,
        Value::Array(_) => Type::Array,
        Value::Table(_) => Type::Table,
    }
}

/// The name of the tag of `v`.
pub fn name_of_val(v: &Value) -> (r: &'static str)
    ensures
        r@ == tag_name(type_of(*v)),
{
    type_of_val(v).name()
}

/// Whether `a` and `b` have the same model: tables compare as maps, whatever the order of their
/// entries.
pub fn values_equal(a: &Value, b: &Value) -> (r: bool)
    ensures
        r == (model(*a) == model(*b)),
    decreases a,
{
    match (a, b) {
        (Value::String(x), Value::String(y)) => *x == *y,
        (Value::Integer(x), Value::Integer(y)) => *x == *y,
        (Value::Float(x), Value::Float(y)) => *x == *y,
        (Value::Boolean(x), Value::Boolean(y)) => *x == *y,
        (Value::Datetime(x), Value::Datetime(y)) => *x == *y,
        (Value::Array(x), Value::Array(y)) => {
            proof {
                lemma_model_items(x@);
                lemma_model_items(y@);
            }
            if x.len() != y.len() {
                return false;
            }
            let mut i: usize = 0;
            proof {
                assert(decreases_to!(a => x@));
            }
            while i < x.len()
                invariant
                    decreases_to!(a => x@),
                    model(*a) == Node::Array(model_items(x@)),
                    model(*b) == Node::Array(model_items(y@)),
                    x@.len() == y@.len(),
                    i <= x@.len(),
                    model_items(x@).len() == x@.len(),
                    model_items(y@).len() == y@.len(),
                    forall|j: int| 0 <= j < x@.len() ==> #[trigger] model_items(x@)[j] == model(x@[j]),
                    forall|j: int| 0 <= j < y@.len() ==> #[trigger] model_items(y@)[j] == model(y@[j]),
                    forall|j: int| 0 <= j < i ==> model(#[trigger] x@[j]) == model(y@[j]),
                decreases x@.len() - i,
            {
                proof {
                    assert(decreases_to!(x@ => x@[i as int]));
                }
                if !values_equal(&x[i], &y[i]) {
                    assert(model_items(x@)[i as int] != model_items(y@)[i as int]);
                    return false;
                }
                i = i + 1;
            }
            assert(model_items(x@) =~= model_items(y@));
            true
        },
        (Value::Table(x), Value::Table(y)) => {
            let ghost mx = model_entries(x@);
            let ghost my = model_entries(y@);
            proof {
                assert(decreases_to!(a => x@));
            }
            let mut i: usize = 0;
            while i < x.len()
                invariant
                    decreases_to!(a => x@),
                    model(*a) == Node::Table(mx),
                    model(*b) == Node::Table(my),
                    mx == model_entries(x@),
                    my == model_entries(y@),
                    i <= x@.len(),
                    forall|p: int| 0 <= p < i ==> mx.contains_key((#[trigger] x@[p]).0@) && my.contains_key(x@[p].0@) && my[x@[p].0@] == mx[x@[p].0@],
                decreases x@.len() - i,
            {
                let k = &x[i].0;
                let f = find_entry(x, k);
                let g = find_entry(y, k);
                proof {
                    lemma_found_entry(x@, k@, f);
                    lemma_found_entry(y@, k@, g);
                }
                match (f, g) {
                    (Some(f), Some(g)) => {
                        proof {
                            assert(decreases_to!(x@ => x@[f as int]));
                        }
                        if !values_equal(&x[f].1, &y[g].1) {
                            return false;
                        }
                    },
                    _ => {
                        return false;
                    },
                }
                i = i + 1;
            }
            let mut j: usize = 0;
            while j < y.len()
                invariant
                    model(*a) == Node::Table(mx),
                    model(*b) == Node::Table(my),
                    mx == model_entries(x@),
                    my == model_entries(y@),
                    forall|p: int| 0 <= p < x@.len() ==> mx.contains_key((#[trigger] x@[p]).0@) && my.contains_key(x@[p].0@) && my[x@[p].0@] == mx[x@[p].0@],
                    j <= y@.len(),
                    forall|p: int| 0 <= p < j ==> mx.contains_key((#[trigger] y@[p]).0@),
                decreases y@.len() - j,
            {
                let k = &y[j].0;
                let f = find_entry(x, k);
                proof {
                    lemma_found_entry(x@, k@, f);
                    lemma_model_entries_keys(y@, k@);
                    assert(y@[j as int].0@ == k@);
                }
                if f.is_none() {
                    return false;
                }
                j = j + 1;
            }
            proof {
                assert forall|k: Seq<char>| #[trigger] mx.contains_key(k) == my.contains_key(k) && (mx.contains_key(k) ==> my[k] == mx[k]) by {
                    if mx.contains_key(k) {
                        lemma_model_entries_keys(x@, k);
                        let p = choose|p: int| 0 <= p < x@.len() && (#[trigger] x@[p]).0@ == k;
                        assert(my.contains_key(x@[p].0@));
                    }
                    if my.contains_key(k) {
                        lemma_model_entries_keys(y@, k);
                        let p = choose|p: int| 0 <= p < y@.len() && (#[trigger] y@[p]).0@ == k;
                        assert(mx.contains_key(y@[p].0@));
                    }
                }
                assert(mx =~= my);
            }
            true
        },
        _ => false,
    }
}

impl PartialEq for Value {
    fn eq(&self, other: &Value) -> (r: bool)
        ensures
            r == (model(*self) == model(*other)),
    {
        values_equal(self, other)
    }
}

impl vstd::std_specs::cmp::PartialEqSpecImpl for Value {
    open spec fn obeys_eq_spec() -> bool {
        true
    }

    open spec fn eq_spec(&self, other: &Value) -> bool {
        model(*self) == model(*other)
    }
}

impl Clone for Value {
    fn clone(&self) -> (r: Value)
        ensures
            model(r) == model(*self),
        decreases self,
    {
        match self {
            Value::String(s) => Value::String(s.clone()),
            Value::Integer(i) => Value::Integer(*i),
            Value::Float(f) => Value::Float(*f),
            Value::Boolean(b) => Value::Boolean(*b),
            Value::Datetime(d) => Value::Datetime(d.clone()),
            Value::Array(a) => {
                let mut out: Vec<Value> = Vec::new();
                let mut i: usize = 0;
                proof {
                    assert(decreases_to!(self => a@));
                }
                while i < a.len()
                    invariant
                        decreases_to!(self => a@),
                        i <= a@.len(),
                        out@.len() == i,
                        forall|j: int| 0 <= j < i ==> model(#[trigger] out@[j]) == model(a@[j]),
                    decreases a@.len() - i,
                {
                    let c = a[i].clone();
                    out.push(c);
                    i = i + 1;
                }
                proof {
                    lemma_model_items_pointwise(out@, a@);
                }
                Value::Array(out)
            },
            Value::Table(t) => {
                let mut out: Vec<(String, Value)> = Vec::new();
                let mut i: usize = 0;
                proof {
                    assert(decreases_to!(self => t@));
                }
                while i < t.len()
                    invariant
                        decreases_to!(self => t@),
                        i <= t@.len(),
                        out@.len() == i,
                        forall|j: int| 0 <= j < i ==> (#[trigger] out@[j]).0@ == t@[j].0@ && model(out@[j].1) == model(t@[j].1),
                    decreases t@.len() - i,
                {
                    proof {
                        assert(decreases_to!(t@ => t@[i as int]));
                    }
                    let k = t[i].0.clone();
                    let c = t[i].1.clone();
                    out.push((k, c));
                    i = i + 1;
                }
                proof {
                    lemma_model_entries_pointwise(out@, t@);
                }
                Value::Table(out)
            },
        }
    }
}

} // verus!
