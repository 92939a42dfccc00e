//! A dynamic CBOR value.

use vstd::prelude::*;

pub mod bytes;
pub mod canonical;
pub mod float;
pub mod integer;

use float::Float;
use integer::Integer;

verus! {

broadcast use vstd::std_specs::vec::group_vec_axioms, vstd::seq::group_seq_axioms;

/// A representation of a dynamic CBOR value that can be handled dynamically.
#[derive(Debug, PartialEq, Eq)]
pub enum Value {
    /// An integer.
    Integer(Integer),
    /// Bytes.
    Bytes(Vec<u8>),
    /// A float, as the bits of its IEEE 754 binary64 form.
    Float(Float),
    /// A string.
    Text(String),
    /// A boolean.
    Bool(bool),
    /// Null.
    Null,
    /// A tagged value.
    Tag(u64, Box<Value>),
    /// An array.
    Array(Vec<Value>),
    /// A map, as a list of entries in insertion order; duplicate keys are
    /// allowed at this level.
    Mapping(Vec<(Value, Value)>),
}

/// The mathematical model of a dynamic CBOR value: integers as unbounded
/// integers, byte and text strings as sequences, containers as sequences of
/// models.
pub enum ValueView {
    /// An integer.
    Integer(int),
    /// Bytes.
    Bytes(Seq<u8>),
    /// A float, as the bits of its IEEE 754 binary64 form.
    Float(u64),
    /// A string, as its characters.
    Text(Seq<char>),
    /// A boolean.
    Bool(bool),
    /// Null.
    Null,
    /// A tagged value.
    Tag(u64, Box<ValueView>),
    /// An array.
    Array(Seq<ValueView>),
    /// A map, as entries in insertion order.
    Mapping(Seq<(ValueView, ValueView)>),
}

impl ValueView {
    /// A structurally valid value: every integer in it lies in the range
    /// that CBOR integer items cover.
    pub open spec fn wf(self) -> bool
        decreases self,
    {
        match self {
            ValueView::Integer(x) => -0x10000000000000000 <= x < 0x10000000000000000,
            ValueView::Tag(_, v) => v.wf(),
            ValueView::Array(a) => forall|i: int| 0 <= i < a.len() ==> #[trigger] a[i].wf(),
            ValueView::Mapping(m) => forall|i: int|
                0 <= i < m.len() ==> (#[trigger] m[i].0.wf() && m[i].1.wf()),
            _ => true,
        }
    }
}

/// The model of a value.
pub open spec fn view_of(v: Value) -> ValueView
    decreases v,
    via view_of_decreases
{
    match v {
        Value::Integer(x) => ValueView::Integer(x.spec_value()),
        Value::Bytes(b) => ValueView::Bytes(b@),
        Value::Float(f) => ValueView::Float(f.0),
        Value::Text(s) => ValueView::Text(s@),
        Value::Bool(b) => ValueView::Bool(b),
        Value::Null => ValueView::Null,
        Value::Tag(t, v) => ValueView::Tag(t, Box::new(view_of(*v))),
        Value::Array(a) => ValueView::Array(
            Seq::new(
                a@.len(),
                |i: int|
                    if 0 <= i < a@.len() {
                        view_of(a@[i])
                    } else {
                        ValueView::Null
                    },
            ),
        ),
        Value::Mapping(m) => ValueView::Mapping(
            Seq::new(
                m@.len(),
                |i: int|
                    if 0 <= i < m@.len() {
                        (view_of(m@[i].0), view_of(m@[i].1))
                    } else {
                        (ValueView::Null, ValueView::Null)
                    },
            ),
        ),
    }
}

#[via_fn]
proof fn view_of_decreases(v: Value) {
    match v {
        Value::Array(a) => {
            assert(decreases_to!(v => a));
            assert(decreases_to!(a => a@));
            assert forall|i: int| 0 <= i < a@.len() implies decreases_to!(v => a@[i]) by {
                assert(decreases_to!(a@ => a@[i]));
            }
        },
        Value::Mapping(m) => {
            assert(decreases_to!(v => m));
            assert(decreases_to!(m => m@));
            assert forall|i: int| 0 <= i < m@.len() implies decreases_to!(v => m@[i].0)
                && decreases_to!(v => m@[i].1) by {
                assert(decreases_to!(m@ => m@[i]));
                assert(decreases_to!(m@[i] => m@[i].0));
                assert(decreases_to!(m@[i] => m@[i].1));
            }
        },
        _ => {},
    }
}

/// The models of a sequence of values.
pub open spec fn views_of(a: Seq<Value>) -> Seq<ValueView> {
    Seq::new(
        a.len(),
        |i: int|
            if 0 <= i < a.len() {
                view_of(a[i])
            } else {
                ValueView::Null
            },
    )
}

/// The models of a sequence of map entries.
pub open spec fn entry_views_of(m: Seq<(Value, Value)>) -> Seq<(ValueView, ValueView)> {
    Seq::new(
        m.len(),
        |i: int|
            if 0 <= i < m.len() {
                (view_of(m[i].0), view_of(m[i].1))
            } else {
                (ValueView::Null, ValueView::Null)
            },
    )
}

impl View for Value {
    type V = ValueView;

    open spec fn view(&self) -> ValueView {
        view_of(*self)
    }
}

impl Value {
    /// A structurally valid value: every integer in it lies in the range
    /// that CBOR integers cover.
    pub open spec fn wf(self) -> bool
        decreases self,
        via Value::wf_decreases
    {
        match self {
            Value::Integer(x) => x.wf(),
            Value::Tag(_, v) => v.wf(),
            Value::Array(a) => forall|i: int| 0 <= i < a@.len() ==> (#[trigger] a@[i]).wf(),
            Value::Mapping(m) => forall|i: int|
                0 <= i < m@.len() ==> ((#[trigger] m@[i]).0.wf() && m@[i].1.wf()),
            _ => true,
        }
    }

    #[via_fn]
    proof fn wf_decreases(self) {
        match self {
            Value::Array(a) => {
                assert(decreases_to!(self => a));
                assert(decreases_to!(a => a@));
                assert forall|i: int| 0 <= i < a@.len() implies decreases_to!(self => a@[i]) by {
                    assert(decreases_to!(a@ => a@[i]));
                }
            },
            Value::Mapping(m) => {
                assert(decreases_to!(self => m));
                assert(decreases_to!(m => m@));
                assert forall|i: int|
                    0 <= i < m@.len() implies decreases_to!(self => m@[i].0) && decreases_to!(
                        self => m@[i].1) by {
                    assert(decreases_to!(m@ => m@[i]));
                    assert(decreases_to!(m@[i] => m@[i].0));
                    assert(decreases_to!(m@[i] => m@[i].1));
                }
            },
            _ => {},
        }
    }

    /// Returns true if the `Value` is an `Integer`. Returns false otherwise.
    pub fn is_integer(&self) -> (r: bool)
        ensures
            r == (self is Integer),
    {
        self.as_integer().is_some()
    }

    /// If the `Value` is an `Integer`, returns a reference to the associated
    /// `Integer` data. Returns None otherwise.
    pub fn as_integer(&self) -> (r: Option<&Integer>)
        ensures
            match *self {
                Value::Integer(ref i) => r == Some(i),
                _ => r is None,
            },
    {
        match *self {
            Value::Integer(ref i) => Some(i),
            _ => None,
        }
    }

    /// Returns true if the `Value` is a `Bytes`. Returns false otherwise.
    pub fn is_bytes(&self) -> (r: bool)
        ensures
            r == (self is Bytes),
    {
        self.as_bytes().is_some()
    }

    /// If the `Value` is a `Bytes`, returns a reference to the associated
    /// bytes vector. Returns None otherwise.
    pub fn as_bytes(&self) -> (r: Option<&Vec<u8>>)
        ensures
            match *self {
                Value::Bytes(ref b) => r == Some(b),
                _ => r is None,
            },
    {
        match *self {
            Value::Bytes(ref bytes) => Some(bytes),
            _ => None,
        }
    }

    /// If the `Value` is a `Bytes`, returns a mutable reference to the
    /// associated bytes vector. Returns None otherwise.
    pub fn as_bytes_mut(&mut self) -> (r: Option<&mut Vec<u8>>)
        ensures
            *old(self) is Bytes <==> r is Some,
            match r {
                Some(b) => {
                    &&& *old(self) == Value::Bytes(*b)
                    &&& *final(self) == Value::Bytes(*final(b))
                },
                None => *final(self) == *old(self),
            },
    {
        match *self {
            Value::Bytes(ref mut bytes) => Some(bytes),
            _ => None,
        }
    }

    /// Returns true if the `Value` is a `Float`. Returns false otherwise.
    pub fn is_float(&self) -> (r: bool)
        ensures
            r == (self is Float),
    {
        self.as_float().is_some()
    }

    /// If the `Value` is a `Float`, returns a reference to the associated
    /// float data. Returns None otherwise.
    pub fn as_float(&self) -> (r: Option<&Float>)
        ensures
            match *self {
                Value::Float(ref f) => r == Some(f),
                _ => r is None,
            },
    {
        match *self {
            Value::Float(ref f) => Some(f),
            _ => None,
        }
    }

    /// Returns true if the `Value` is a `Text`. Returns false otherwise.
    pub fn is_text(&self) -> (r: bool)
        ensures
            r == (self is Text),
    {
        self.as_text().is_some()
    }

    /// If the `Value` is a `Text`, returns a reference to the associated
    /// `String` data. Returns None otherwise.
    pub fn as_text(&self) -> (r: Option<&String>)
        ensures
            match *self {
                Value::Text(ref s) => r == Some(s),
                _ => r is None,
            },
    {
        match *self {
            Value::Text(ref s) => Some(s),
            _ => None,
        }
    }

    /// If the `Value` is a `Text`, returns a mutable reference to the
    /// associated `String` data. Returns None otherwise.
    pub fn as_text_mut(&mut self) -> (r: Option<&mut String>)
        ensures
            *old(self) is Text <==> r is Some,
            match r {
                Some(s) => {
                    &&& *old(self) == Value::Text(*s)
                    &&& *final(self) == Value::Text(*final(s))
                },
                None => *final(self) == *old(self),
            },
    {
        match *self {
            Value::Text(ref mut s) => Some(s),
            _ => None,
        }
    }

    /// If the `Value` is a `Text`, returns the associated `String` as an
    /// `&str`. Returns None otherwise.
    pub fn as_str(&self) -> (r: Option<&str>)
        ensures
            match *self {
                Value::Text(ref s) => r matches Some(t) && t@ == s@,
                _ => r is None,
            },
    {
        match *self {
            Value::Text(ref s) => Some(s.as_str()),
            _ => None,
        }
    }

    /// Returns true if the `Value` is a `Bool`. Returns false otherwise.
    pub fn is_bool(&self) -> (r: bool)
        ensures
            r == (self is Bool),
    {
        self.as_bool().is_some()
    }

    /// If the `Value` is a `Bool`, returns a copy of the associated boolean
    /// value. Returns None otherwise.
    pub fn as_bool(&self) -> (r: Option<bool>)
        ensures
            match *self {
                Value::Bool(b) => r == Some(b),
                _ => r is None,
            },
    {
        match *self {
            Value::Bool(b) => Some(b),
            _ => None,
        }
    }

    /// Returns true if the `Value` is a `Null`. Returns false otherwise.
    pub fn is_null(&self) -> (r: bool)
        ensures
            r == (self is Null),
    {
        match *self {
            Value::Null => true,
            _ => false,
        }
    }

    /// Returns true if the `Value` is a `Tag`. Returns false otherwise.
    pub fn is_tag(&self) -> (r: bool)
        ensures
            r == (self is Tag),
    {
        self.as_tag().is_some()
    }

    /// If the `Value` is a `Tag`, returns the associated tag number and a
    /// reference to the tagged `Value`. Returns None otherwise.
    pub fn as_tag(&self) -> (r: Option<(&u64, &Value)>)
        ensures
            match *self {
                Value::Tag(ref t, ref v) => r matches Some(p) && p.0 == t && *p.1 == **v,
                _ => r is None,
            },
    {
        match *self {
            Value::Tag(ref tag, ref data) => Some((tag, &**data)),
            _ => None,
        }
    }

    /// Returns true if the `Value` is an `Array`. Returns false otherwise.
    pub fn is_array(&self) -> (r: bool)
        ensures
            r == (self is Array),
    {
        self.as_array().is_some()
    }

    /// If the `Value` is an `Array`, returns a reference to the associated
    /// vector. Returns None otherwise.
    pub fn as_array(&self) -> (r: Option<&Vec<Value>>)
        ensures
            match *self {
                Value::Array(ref a) => r == Some(a),
                _ => r is None,
            },
    {
        match *self {
            Value::Array(ref array) => Some(array),
            _ => None,
        }
    }

    /// If the `Value` is an `Array`, returns a mutable reference to the
    /// associated vector. Returns None otherwise.
    pub fn as_array_mut(&mut self) -> (r: Option<&mut Vec<Value>>)
        ensures
            *old(self) is Array <==> r is Some,
            match r {
                Some(a) => {
                    &&& *old(self) == Value::Array(*a)
                    &&& *final(self) == Value::Array(*final(a))
                },
                None => *final(self) == *old(self),
            },
    {
        match *self {
            Value::Array(ref mut list) => Some(list),
            _ => None,
        }
    }

    /// Returns true if the `Value` is a map. Returns false otherwise.
    pub fn is_map(&self) -> (r: bool)
        ensures
            r == (self is Mapping),
    {
        self.as_map().is_some()
    }

    /// If the `Value` is a map, returns a reference to the associated list
    /// of entries. Returns None otherwise.
    pub fn as_map(&self) -> (r: Option<&Vec<(Value, Value)>>)
        ensures
            match *self {
                Value::Mapping(ref m) => r == Some(m),
                _ => r is None,
            },
    {
        match *self {
            Value::Mapping(ref map) => Some(map),
            _ => None,
        }
    }

    /// If the `Value` is a map, returns a mutable reference to the
    /// associated list of entries. Returns None otherwise.
    pub fn as_map_mut(&mut self) -> (r: Option<&mut Vec<(Value, Value)>>)
        ensures
            *old(self) is Mapping <==> r is Some,
            match r {
                Some(m) => {
                    &&& *old(self) == Value::Mapping(*m)
                    &&& *final(self) == Value::Mapping(*final(m))
                },
                None => *final(self) == *old(self),
            },
    {
        match *self {
            Value::Mapping(ref mut map) => Some(map),
            _ => None,
        }
    }
}

/// The minimal big-endian magnitude bytes of a 128-bit number.
fn minimal_be_bytes(n: u128) -> (r: Vec<u8>)
    ensures
        r@ == crate::min::spec_minimal_be(n as nat),
    decreases n,
{
    if n == 0 {
        let r: Vec<u8> = Vec::new();
        assert(r@ =~= crate::min::spec_minimal_be(0));
        r
    } else {
        let mut r = minimal_be_bytes(n / 256);
        r.push((n % 256) as u8);
        r
    }
}

/// Builds the value of a signed 128-bit integer: a plain integer when it
/// lies in the CBOR integer range, the tagged minimal big-endian magnitude
/// otherwise (the magnitude of a negative value being `-1 - v`).
pub fn value_from_i128(v: i128) -> (r: Value)
    ensures
        r.wf(),
        -0x10000000000000000 <= v < 0x10000000000000000 ==> r@ == ValueView::Integer(v as int),
        v >= 0x10000000000000000 ==> r@ == ValueView::Tag(
            2,
            Box::new(ValueView::Bytes(crate::min::spec_minimal_be(v as nat))),
        ),
        v < -0x10000000000000000 ==> r@ == ValueView::Tag(
            3,
            Box::new(ValueView::Bytes(crate::min::spec_minimal_be((-1 - v) as nat))),
        ),
{
    if -0x10000000000000000 <= v && v < 0x10000000000000000 {
        match Integer::try_from_i128(v) {
            Some(i) => Value::Integer(i),
            None => {
                proof {
                    assert(false);
                }
                Value::Null
            },
        }
    } else if v >= 0 {
        let m = minimal_be_bytes(v as u128);
        let ghost gm = m@;
        let bx = Box::new(Value::Bytes(m));
        proof {
            assert((*bx)@ == ValueView::Bytes(gm));
            assert((*bx).wf());
        }
        let r = Value::Tag(2, bx);
        proof {
            assert(r@ == ValueView::Tag(2, Box::new(ValueView::Bytes(gm))));
            assert(r.wf());
        }
        r
    } else {
        let m = minimal_be_bytes((-1 - v) as u128);
        let ghost gm = m@;
        let bx = Box::new(Value::Bytes(m));
        proof {
            assert((*bx)@ == ValueView::Bytes(gm));
            assert((*bx).wf());
        }
        let r = Value::Tag(3, bx);
        proof {
            assert(r@ == ValueView::Tag(3, Box::new(ValueView::Bytes(gm))));
            assert(r.wf());
        }
        r
    }
}

/// Builds the value of an unsigned 128-bit integer: a plain integer when it
/// fits 64 bits, the tagged minimal big-endian magnitude otherwise.
pub fn value_from_u128(v: u128) -> (r: Value)
    ensures
        r.wf(),
        v < 0x10000000000000000 ==> r@ == ValueView::Integer(v as int),
        v >= 0x10000000000000000 ==> r@ == ValueView::Tag(
            2,
            Box::new(ValueView::Bytes(crate::min::spec_minimal_be(v as nat))),
        ),
{
    if v < 0x10000000000000000 {
        match Integer::try_from_u128(v) {
            Some(i) => Value::Integer(i),
            None => {
                proof {
                    assert(false);
                }
                Value::Null
            },
        }
    } else {
        let m = minimal_be_bytes(v);
        let ghost gm = m@;
        let bx = Box::new(Value::Bytes(m));
        proof {
            assert((*bx)@ == ValueView::Bytes(gm));
            assert((*bx).wf());
        }
        let r = Value::Tag(2, bx);
        proof {
            assert(r@ == ValueView::Tag(2, Box::new(ValueView::Bytes(gm))));
            assert(r.wf());
        }
        r
    }
}

impl Clone for Value {
    /// Clones the value; the copy models the same CBOR value and is valid
    /// whenever the original is.
    fn clone(&self) -> (r: Value)
        ensures
            r@ == self@,
            self.wf() ==> r.wf(),
    {
        deep_clone(self)
    }
}

/// Copies a byte vector.
fn clone_byte_vec(v: &Vec<u8>) -> (r: Vec<u8>)
    ensures
        r@ == v@,
{
    let mut out: Vec<u8> = Vec::new();
    let mut i: usize = 0;
    while i < v.len()
        invariant
            i <= v@.len(),
            out@ == v@.take(i as int),
        decreases v@.len() - i,
    {
        out.push(v[i]);
        assert(out@ =~= v@.take(i + 1 as int));
        i = i + 1;
    }
    assert(out@ =~= v@);
    out
}

/// Clones a value recursively.
#[verifier::loop_isolation(false)]
fn deep_clone(v: &Value) -> (r: Value)
    ensures
        r@ == v@,
        v.wf() ==> r.wf(),
    decreases v,
{
    match v {
        Value::Integer(x) => Value::Integer(*x),
        Value::Bytes(b) => Value::Bytes(clone_byte_vec(b)),
        Value::Float(f) => Value::Float(*f),
        Value::Text(s) => Value::Text(s.clone()),
        Value::Bool(b) => Value::Bool(*b),
        Value::Null => Value::Null,
        Value::Tag(t, inner) => Value::Tag(*t, Box::new(deep_clone(&**inner))),
        Value::Array(a) => {
            let mut out: Vec<Value> = Vec::new();
            let mut i: usize = 0;
            while i < a.len()
                invariant
                    i <= a@.len(),
                    out@.len() == i,
                    forall|j: int| 0 <= j < i ==> #[trigger] out@[j]@ == a@[j]@,
                    forall|j: int|
                        0 <= j < i ==> ((#[trigger] a@[j]).wf() ==> out@[j].wf()),
                decreases a@.len() - i,
            {
                proof {
                    assert(decreases_to!(*v => *a));
                    assert(decreases_to!(*a => a@));
                    assert(decreases_to!(a@ => a@[i as int]));
                }
                out.push(deep_clone(&a[i]));
                i = i + 1;
            }
            let r = Value::Array(out);
            proof {
                if (*v).wf() {
                    assert forall|j: int| 0 <= j < out@.len() implies (#[trigger] out@[j]).wf() by {
                        assert(a@[j].wf());
                    }
                    assert(r.wf());
                }
                let s = r@->Array_0;
                let tgt = v@->Array_0;
                assert(r@ is Array);
                assert(v@ is Array);
                assert(s.len() == out@.len());
                assert(out@.len() == a@.len());
                assert(tgt.len() == a@.len());
                assert forall|j: int| 0 <= j < s.len() implies s[j] == tgt[j] by {
                    assert(out@[j]@ == a@[j]@);
                    assert(s[j] == view_of(out@[j]));
                    assert(tgt[j] == view_of(a@[j]));
                }
                assert(s =~= tgt);
            }
            r
        },
        Value::Mapping(m) => {
            let mut out: Vec<(Value, Value)> = Vec::new();
            let mut i: usize = 0;
            while i < m.len()
                invariant
                    i <= m@.len(),
                    out@.len() == i,
                    forall|j: int|
                        0 <= j < i ==> (#[trigger] out@[j].0@ == m@[j].0@ && out@[j].1@
                            == m@[j].1@),
                    forall|j: int|
                        0 <= j < i ==> (((#[trigger] m@[j]).0.wf() ==> out@[j].0.wf()) && (
                        m@[j].1.wf() ==> out@[j].1.wf())),
                decreases m@.len() - i,
            {
                proof {
                    assert(decreases_to!(*v => *m));
                    assert(decreases_to!(*m => m@));
                    assert(decreases_to!(m@ => m@[i as int]));
                    assert(decreases_to!(m@[i as int] => m@[i as int].0));
                    assert(decreases_to!(m@[i as int] => m@[i as int].1));
                }
                let k = deep_clone(&m[i].0);
                let val = deep_clone(&m[i].1);
                let ghost kk = k@;
                let ghost vv = val@;
                let ghost kw = k;
                let ghost vw = val;
                out.push((k, val));
                proof {
                    assert(out@[i as int] == (kw, vw));
                }
                i = i + 1;
            }
            let r = Value::Mapping(out);
            proof {
                if (*v).wf() {
                    assert forall|j: int|
                        0 <= j < out@.len() implies ((#[trigger] out@[j]).0.wf()
                            && out@[j].1.wf()) by {
                        assert(m@[j].0.wf() && m@[j].1.wf());
                    }
                    assert(r.wf());
                }
                let s = r@->Mapping_0;
                let tgt = v@->Mapping_0;
                assert(r@ is Mapping);
                assert(v@ is Mapping);
                assert(s.len() == out@.len());
                assert(out@.len() == m@.len());
                assert(tgt.len() == m@.len());
                assert forall|j: int| 0 <= j < s.len() implies s[j] == tgt[j] by {
                    assert(out@[j].0@ == m@[j].0@ && out@[j].1@ == m@[j].1@);
                    assert(s[j] == (view_of(out@[j].0), view_of(out@[j].1)));
                    assert(tgt[j] == (view_of(m@[j].0), view_of(m@[j].1)));
                }
                assert(s =~= tgt);
            }
            r
        },
    }
}

} // verus!
