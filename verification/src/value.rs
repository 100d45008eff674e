use std::rc::Rc;

use vstd::prelude::*;
use vstd::wrapping::u64_specs;

verus! {

/// Relies on std::rc::Rc::clone: the clone is another pointer to the same
/// allocation, so it carries the same value.
#[verifier::external_body]
pub(crate) fn rc_clone<T>(rc: &Rc<T>) -> (res: Rc<T>)
    ensures
        res == *rc,
{
    Rc::clone(rc)
}

/// A structural JSON value: null, boolean, integer number, string, array or
/// object. Objects keep their entries in their existing order (inputs are
/// assumed already canonical), so two objects are equal only entry for entry.
pub enum Value {
    Null,
    Bool(bool),
    Number(i64),
    Text(String),
    Array(Vec<Value>),
    Object(Vec<(String, Value)>),
}

/// Structural equality of two values: scalars by value, strings by their
/// characters, containers pointwise in order.
pub open spec fn deep_eq(a: Value, b: Value) -> bool
    decreases a,
{
    match a {
        Value::Null => b is Null,
        Value::Bool(x) => match b {
            Value::Bool(y) => x == y,
            _ => false,
        },
        Value::Number(x) => match b {
            Value::Number(y) => x == y,
            _ => false,
        },
        Value::Text(x) => match b {
            Value::Text(y) => x@ == y@,
            _ => false,
        },
        Value::Array(x) => match b {
            Value::Array(y) => deep_eq_seq(x@, y@),
            _ => false,
        },
        Value::Object(x) => match b {
            Value::Object(y) => deep_eq_entries(x@, y@),
            _ => false,
        },
    }
}

pub open spec fn deep_eq_seq(a: Seq<Value>, b: Seq<Value>) -> bool
    decreases a,
{
    if a.len() != b.len() {
        false
    } else if a.len() == 0 {
        true
    } else {
        deep_eq(a.last(), b.last()) && deep_eq_seq(a.drop_last(), b.drop_last())
    }
}

pub open spec fn deep_eq_entries(a: Seq<(String, Value)>, b: Seq<(String, Value)>) -> bool
    decreases a,
{
    if a.len() != b.len() {
        false
    } else if a.len() == 0 {
        true
    } else {
        a.last().0@ == b.last().0@ && deep_eq(a.last().1, b.last().1) && deep_eq_entries(
            a.drop_last(),
            b.drop_last(),
        )
    }
}

/// One mixing step of the structural hash.
pub open spec fn mix(h: u64, x: u64) -> u64 {
    u64_specs::wrapping_add(u64_specs::wrapping_mul(h, 31), x)
}

/// The structural hash of a value: a tag for the variant, then the scalar
/// content, the characters of a string, or the hashes of the children mixed
/// in order; object entries contribute key then hashed value.
pub open spec fn hash_spec(v: Value) -> u64
    decreases v,
{
    match v {
        Value::Null => 1u64,
        Value::Bool(b) => mix(2u64, if b { 1u64 } else { 0u64 }),
        Value::Number(n) => mix(3u64, n as u64),
        Value::Text(s) => mix(4u64, hash_chars(s@)),
        Value::Array(a) => mix(5u64, hash_seq(a@)),
        Value::Object(o) => mix(6u64, hash_entries(o@)),
    }
}

pub open spec fn hash_chars(s: Seq<char>) -> u64
    decreases s,
{
    if s.len() == 0 {
        0u64
    } else {
        mix(hash_chars(s.drop_last()), s.last() as u64)
    }
}

pub open spec fn hash_seq(a: Seq<Value>) -> u64
    decreases a,
{
    if a.len() == 0 {
        0u64
    } else {
        mix(hash_seq(a.drop_last()), hash_spec(a.last()))
    }
}

pub open spec fn hash_entries(o: Seq<(String, Value)>) -> u64
    decreases o,
{
    if o.len() == 0 {
        0u64
    } else {
        mix(mix(hash_entries(o.drop_last()), hash_chars(o.last().0@)), hash_spec(o.last().1))
    }
}

impl Value {
    /// Structural equality, recursing through containers.
    pub fn equals(&self, other: &Value) -> (r: bool)
        ensures
            r == deep_eq(*self, *other),
        decreases *self,
    {
        match self {
            Value::Null => match other {
                Value::Null => true,
                _ => false,
            },
            Value::Bool(x) => match other {
                Value::Bool(y) => *x == *y,
                _ => false,
            },
            Value::Number(x) => match other {
                Value::Number(y) => *x == *y,
                _ => false,
            },
            Value::Text(x) => match other {
                Value::Text(y) => *x == *y,
                _ => false,
            },
            Value::Array(x) => match other {
                Value::Array(y) => {
                if x.len() != y.len() {
                    return false;
                }
                let mut i: usize = 0;
                let mut same = true;
                while i < x.len()
                    invariant
                        i <= x.len() == y.len(),
                        same == deep_eq_seq(x@.subrange(0, i as int), y@.subrange(0, i as int)),
                        forall|v: Value| x@.contains(v) ==> decreases_to!(*self => v),
                    decreases x.len() - i,
                {
                    proof {
                        assert(x@.contains(x@[i as int]));
                        lemma_deep_eq_seq_push(
                            x@.subrange(0, i as int),
                            y@.subrange(0, i as int),
                            x@[i as int],
                            y@[i as int],
                        );
                        assert(x@.subrange(0, i as int).push(x@[i as int]) =~= x@.subrange(
                            0,
                            i as int + 1,
                        ));
                        assert(y@.subrange(0, i as int).push(y@[i as int]) =~= y@.subrange(
                            0,
                            i as int + 1,
                        ));
                    }
                    let e = x[i].equals(&y[i]);
                    same = same && e;
                    i = i + 1;
                }
                proof {
                    assert(x@.subrange(0, x@.len() as int) =~= x@);
                    assert(y@.subrange(0, y@.len() as int) =~= y@);
                }
                same
                },
                _ => false,
            },
            Value::Object(x) => match other {
                Value::Object(y) => {
                if x.len() != y.len() {
                    return false;
                }
                let mut i: usize = 0;
                let mut same = true;
                while i < x.len()
                    invariant
                        i <= x.len() == y.len(),
                        same == deep_eq_entries(
                            x@.subrange(0, i as int),
                            y@.subrange(0, i as int),
                        ),
                        forall|e: (String, Value)| x@.contains(e) ==> decreases_to!(*self => e.1),
                    decreases x.len() - i,
                {
                    proof {
                        assert(x@.contains(x@[i as int]));
                        lemma_deep_eq_entries_push(
                            x@.subrange(0, i as int),
                            y@.subrange(0, i as int),
                            x@[i as int],
                            y@[i as int],
                        );
                        assert(x@.subrange(0, i as int).push(x@[i as int]) =~= x@.subrange(
                            0,
                            i as int + 1,
                        ));
                        assert(y@.subrange(0, i as int).push(y@[i as int]) =~= y@.subrange(
                            0,
                            i as int + 1,
                        ));
                    }
                    let ke = x[i].0 == y[i].0;
                    let ve = x[i].1.equals(&y[i].1);
                    same = same && ke && ve;
                    i = i + 1;
                }
                proof {
                    assert(x@.subrange(0, x@.len() as int) =~= x@);
                    assert(y@.subrange(0, y@.len() as int) =~= y@);
                }
                same
                },
                _ => false,
            },
        }
    }
}

/// Appending one element to each side extends pointwise equality by that
/// element.
pub proof fn lemma_deep_eq_seq_push(a: Seq<Value>, b: Seq<Value>, x: Value, y: Value)
    requires
        a.len() == b.len(),
    ensures
        deep_eq_seq(a.push(x), b.push(y)) == (deep_eq_seq(a, b) && deep_eq(x, y)),
{
    assert(a.push(x).drop_last() =~= a);
    assert(b.push(y).drop_last() =~= b);
}

pub proof fn lemma_deep_eq_entries_push(
    a: Seq<(String, Value)>,
    b: Seq<(String, Value)>,
    x: (String, Value),
    y: (String, Value),
)
    requires
        a.len() == b.len(),
    ensures
        deep_eq_entries(a.push(x), b.push(y)) == (deep_eq_entries(a, b) && x.0@ == y.0@ && deep_eq(
            x.1,
            y.1,
        )),
{
    assert(a.push(x).drop_last() =~= a);
    assert(b.push(y).drop_last() =~= b);
}

/// One mixing step of the structural hash, executably.
fn mix_u64(h: u64, x: u64) -> (r: u64)
    ensures
        r == mix(h, x),
{
    h.wrapping_mul(31).wrapping_add(x)
}

/// The hash of all characters of a string, mixed in order.
fn hash_string(s: &String) -> (r: u64)
    ensures
        r == hash_chars(s@),
{
    let n = s.as_str().unicode_len();
    let mut h: u64 = 0;
    let mut i: usize = 0;
    while i < n
        invariant
            i <= n,
            n == s@.len(),
            h == hash_chars(s@.subrange(0, i as int)),
        decreases n - i,
    {
        let c = s.as_str().get_char(i);
        proof {
            assert(s@.subrange(0, i as int + 1).drop_last() =~= s@.subrange(0, i as int));
            assert(s@.subrange(0, i as int + 1).last() == s@[i as int]);
        }
        h = mix_u64(h, c as u64);
        i = i + 1;
    }
    proof {
        assert(s@.subrange(0, s@.len() as int) =~= s@);
    }
    h
}

impl Value {
    /// Structural hash over the value, recursing through containers.
    pub fn hash(&self) -> (r: u64)
        ensures
            r == hash_spec(*self),
        decreases *self,
    {
        match self {
            Value::Null => 1,
            Value::Bool(b) => mix_u64(2, if *b { 1 } else { 0 }),
            Value::Number(n) => mix_u64(3, *n as u64),
            Value::Text(s) => mix_u64(4, hash_string(s)),
            Value::Array(a) => {
                let mut h: u64 = 0;
                let mut i: usize = 0;
                while i < a.len()
                    invariant
                        i <= a.len(),
                        h == hash_seq(a@.subrange(0, i as int)),
                        forall|v: Value| a@.contains(v) ==> decreases_to!(*self => v),
                    decreases a.len() - i,
                {
                    proof {
                        assert(a@.contains(a@[i as int]));
                        assert(a@.subrange(0, i as int + 1).drop_last() =~= a@.subrange(
                            0,
                            i as int,
                        ));
                        assert(a@.subrange(0, i as int + 1).last() == a@[i as int]);
                    }
                    let e = a[i].hash();
                    h = mix_u64(h, e);
                    i = i + 1;
                }
                proof {
                    assert(a@.subrange(0, a@.len() as int) =~= a@);
                }
                mix_u64(5, h)
            },
            Value::Object(o) => {
                let mut h: u64 = 0;
                let mut i: usize = 0;
                while i < o.len()
                    invariant
                        i <= o.len(),
                        h == hash_entries(o@.subrange(0, i as int)),
                        forall|e: (String, Value)| o@.contains(e) ==> decreases_to!(*self => e.1),
                    decreases o.len() - i,
                {
                    proof {
                        assert(o@.contains(o@[i as int]));
                        assert(o@.subrange(0, i as int + 1).drop_last() =~= o@.subrange(
                            0,
                            i as int,
                        ));
                        assert(o@.subrange(0, i as int + 1).last() == o@[i as int]);
                    }
                    let hk = hash_string(&o[i].0);
                    let hv = o[i].1.hash();
                    h = mix_u64(mix_u64(h, hk), hv);
                    i = i + 1;
                }
                proof {
                    assert(o@.subrange(0, o@.len() as int) =~= o@);
                }
                mix_u64(6, h)
            },
        }
    }
}

/// Structural equality is symmetric.
pub proof fn lemma_deep_eq_sym(a: Value, b: Value)
    ensures
        deep_eq(a, b) == deep_eq(b, a),
    decreases a,
{
    match a {
        Value::Array(x) => {
            if let Value::Array(y) = b {
                lemma_deep_eq_seq_sym(x@, y@);
            }
        },
        Value::Object(x) => {
            if let Value::Object(y) = b {
                lemma_deep_eq_entries_sym(x@, y@);
            }
        },
        _ => {
        },
    }
}

proof fn lemma_deep_eq_seq_sym(a: Seq<Value>, b: Seq<Value>)
    ensures
        deep_eq_seq(a, b) == deep_eq_seq(b, a),
    decreases a,
{
    if a.len() == b.len() && a.len() > 0 {
        lemma_deep_eq_sym(a.last(), b.last());
        lemma_deep_eq_seq_sym(a.drop_last(), b.drop_last());
    }
}

proof fn lemma_deep_eq_entries_sym(a: Seq<(String, Value)>, b: Seq<(String, Value)>)
    ensures
        deep_eq_entries(a, b) == deep_eq_entries(b, a),
    decreases a,
{
    if a.len() == b.len() && a.len() > 0 {
        lemma_deep_eq_sym(a.last().1, b.last().1);
        lemma_deep_eq_entries_sym(a.drop_last(), b.drop_last());
    }
}

/// Structural equality is transitive.
pub proof fn lemma_deep_eq_trans(a: Value, b: Value, c: Value)
    requires
        deep_eq(a, b),
        deep_eq(b, c),
    ensures
        deep_eq(a, c),
    decreases a,
{
    match a {
        Value::Array(x) => {
            if let Value::Array(y) = b {
                if let Value::Array(z) = c {
                    lemma_deep_eq_seq_trans(x@, y@, z@);
                }
            }
        },
        Value::Object(x) => {
            if let Value::Object(y) = b {
                if let Value::Object(z) = c {
                    lemma_deep_eq_entries_trans(x@, y@, z@);
                }
            }
        },
        _ => {
        },
    }
}

proof fn lemma_deep_eq_seq_trans(a: Seq<Value>, b: Seq<Value>, c: Seq<Value>)
    requires
        deep_eq_seq(a, b),
        deep_eq_seq(b, c),
    ensures
        deep_eq_seq(a, c),
    decreases a,
{
    if a.len() > 0 {
        lemma_deep_eq_trans(a.last(), b.last(), c.last());
        lemma_deep_eq_seq_trans(a.drop_last(), b.drop_last(), c.drop_last());
    }
}

proof fn lemma_deep_eq_entries_trans(
    a: Seq<(String, Value)>,
    b: Seq<(String, Value)>,
    c: Seq<(String, Value)>,
)
    requires
        deep_eq_entries(a, b),
        deep_eq_entries(b, c),
    ensures
        deep_eq_entries(a, c),
    decreases a,
{
    if a.len() > 0 {
        lemma_deep_eq_trans(a.last().1, b.last().1, c.last().1);
        lemma_deep_eq_entries_trans(a.drop_last(), b.drop_last(), c.drop_last());
    }
}

/// Law: the structural hash respects structural equality. Two structurally
/// equal values hash to the same word.
pub proof fn lemma_hash_respects_eq(a: Value, b: Value)
    requires
        deep_eq(a, b),
    ensures
        hash_spec(a) == hash_spec(b),
    decreases a,
{
    match a {
        Value::Array(x) => {
            if let Value::Array(y) = b {
                lemma_hash_seq_respects_eq(x@, y@);
            }
        },
        Value::Object(x) => {
            if let Value::Object(y) = b {
                lemma_hash_entries_respects_eq(x@, y@);
            }
        },
        _ => {},
    }
}

proof fn lemma_hash_seq_respects_eq(x: Seq<Value>, y: Seq<Value>)
    requires
        deep_eq_seq(x, y),
    ensures
        hash_seq(x) == hash_seq(y),
    decreases x,
{
    if x.len() != 0 {
        lemma_hash_respects_eq(x.last(), y.last());
        lemma_hash_seq_respects_eq(x.drop_last(), y.drop_last());
    }
}

proof fn lemma_hash_entries_respects_eq(x: Seq<(String, Value)>, y: Seq<(String, Value)>)
    requires
        deep_eq_entries(x, y),
    ensures
        hash_entries(x) == hash_entries(y),
    decreases x,
{
    if x.len() != 0 {
        lemma_hash_respects_eq(x.last().1, y.last().1);
        lemma_hash_entries_respects_eq(x.drop_last(), y.drop_last());
    }
}

} // verus!

