//! Serialization of dynamic values: the exact wire bytes of a value, plain
//! or canonical.

use vstd::prelude::*;

pub mod error;

use crate::canonical::CanonicalizationScheme;
use crate::enc::Encoder;
use crate::hdr::Header;
use crate::value::canonical::lex_cmp;
use crate::value::{Value, ValueView};

verus! {

/// The wire bytes of a value: every container keeps its insertion order and
/// is written with a definite length.
#[verifier::opaque]
pub open spec fn spec_encode(v: ValueView) -> Seq<u8>
    decreases v,
{
    match v {
        ValueView::Integer(x) => if x >= 0 {
            Header::Positive(x as u64).spec_bytes()
        } else {
            Header::Negative((-1 - x) as u64).spec_bytes()
        },
        ValueView::Bytes(b) => Header::Bytes(Some(b.len() as usize)).spec_bytes() + b,
        ValueView::Float(bits) => Header::Float(bits).spec_bytes(),
        ValueView::Text(t) => Header::Text(
            Some(vstd::utf8::encode_utf8(t).len() as usize),
        ).spec_bytes() + vstd::utf8::encode_utf8(t),
        ValueView::Bool(b) => if b {
            Header::Simple(crate::SIMPLE_TRUE).spec_bytes()
        } else {
            Header::Simple(crate::SIMPLE_FALSE).spec_bytes()
        },
        ValueView::Null => Header::Simple(crate::SIMPLE_NULL).spec_bytes(),
        ValueView::Tag(t, inner) => Header::Tag(t).spec_bytes() + spec_encode(*inner),
        ValueView::Array(a) => Header::Array(Some(a.len() as usize)).spec_bytes()
            + spec_encode_items(a),
        ValueView::Mapping(m) => Header::Mapping(Some(m.len() as usize)).spec_bytes()
            + spec_encode_entries(m),
    }
}

/// The concatenated wire bytes of a sequence of items.
pub open spec fn spec_encode_items(s: Seq<ValueView>) -> Seq<u8>
    decreases s,
{
    if s.len() == 0 {
        Seq::empty()
    } else {
        spec_encode(s[0]) + spec_encode_items(s.drop_first())
    }
}

/// The concatenated wire bytes of a sequence of map entries.
pub open spec fn spec_encode_entries(s: Seq<(ValueView, ValueView)>) -> Seq<u8>
    decreases s,
{
    if s.len() == 0 {
        Seq::empty()
    } else {
        spec_encode(s[0].0) + spec_encode(s[0].1) + spec_encode_entries(s.drop_first())
    }
}

/// Writes the wire form of a value of a scalar kind: one that holds no
/// other values.
#[verifier::rlimit(100)]
fn encode_scalar(value: &Value, enc: &mut Encoder)
    requires
        value.wf(),
        !(*value is Tag),
        !(*value is Array),
        !(*value is Mapping),
    ensures
        final(enc)@ == old(enc)@ + spec_encode(value@),
{
    proof {
        reveal(spec_encode);
    }
    match value {
        Value::Integer(x) => {
            let xv = x.value();
            if xv >= 0 {
                enc.encode(&Header::Positive(xv as u64));
            } else {
                enc.encode(&Header::Negative((-1 - xv) as u64));
            }
        },
        Value::Bytes(b) => {
            enc.encode(&Header::Bytes(Some(b.len())));
            enc.write_all(b.as_slice());
            assert(enc@ =~= old(enc)@ + spec_encode(value@));
        },
        Value::Float(f) => {
            enc.encode(&Header::Float(f.0));
        },
        Value::Text(s) => {
            let bytes: &[u8] = s.as_str().as_bytes();
            enc.encode(&Header::Text(Some(bytes.len())));
            enc.write_all(bytes);
            assert(enc@ =~= old(enc)@ + spec_encode(value@));
        },
        Value::Bool(b) => {
            if *b {
                enc.encode(&Header::Simple(crate::SIMPLE_TRUE));
            } else {
                enc.encode(&Header::Simple(crate::SIMPLE_FALSE));
            }
        },
        Value::Null => {
            enc.encode(&Header::Simple(crate::SIMPLE_NULL));
        },
        _ => {
            proof {
                assert(false);
            }
        },
    }
}

/// Writes the wire form of a tagged value.
#[verifier::rlimit(100)]
fn encode_tag(value: &Value, enc: &mut Encoder)
    requires
        value.wf(),
        *value is Tag,
    ensures
        final(enc)@ == old(enc)@ + spec_encode(value@),
    decreases value, 0int,
{
    proof {
        reveal(spec_encode);
    }
    match value {
        Value::Tag(t, inner) => {
            enc.encode(&Header::Tag(*t));
            proof {
                assert(decreases_to!(*value => **inner));
            }
            encode_value(&**inner, enc);
            proof {
                let iv = value@->Tag_1;
                assert(spec_encode(value@) == Header::Tag(value@->Tag_0).spec_bytes()
                    + spec_encode(*iv));
                assert(enc@ =~= old(enc)@ + spec_encode(value@));
            }
        },
        _ => {
            proof {
                assert(false);
            }
        },
    }
}

/// Writes the wire form of an array.
#[verifier::rlimit(100)]
fn encode_array(value: &Value, enc: &mut Encoder)
    requires
        value.wf(),
        *value is Array,
    ensures
        final(enc)@ == old(enc)@ + spec_encode(value@),
    decreases value, 0int,
{
    proof {
        reveal(spec_encode);
    }
    match value {
        Value::Array(a) => {
            enc.encode(&Header::Array(Some(a.len())));
            proof {
                assert(decreases_to!(*value => *a));
                assert(value@->Array_0 =~= crate::value::views_of(a@));
            }
            encode_items(a, enc);
            assert(enc@ =~= old(enc)@ + spec_encode(value@));
        },
        _ => {
            proof {
                assert(false);
            }
        },
    }
}

/// Writes the wire form of a map.
#[verifier::rlimit(100)]
fn encode_mapping(value: &Value, enc: &mut Encoder)
    requires
        value.wf(),
        *value is Mapping,
    ensures
        final(enc)@ == old(enc)@ + spec_encode(value@),
    decreases value, 0int,
{
    proof {
        reveal(spec_encode);
    }
    match value {
        Value::Mapping(m) => {
            enc.encode(&Header::Mapping(Some(m.len())));
            proof {
                assert(decreases_to!(*value => *m));
                assert(value@->Mapping_0 =~= crate::value::entry_views_of(m@));
            }
            encode_entries(m, enc);
            assert(enc@ =~= old(enc)@ + spec_encode(value@));
        },
        _ => {
            proof {
                assert(false);
            }
        },
    }
}

/// Writes the wire form of a value.
pub fn encode_value(value: &Value, enc: &mut Encoder)
    requires
        value.wf(),
    ensures
        final(enc)@ == old(enc)@ + spec_encode(value@),
    decreases value, 1int,
{
    match value {
        Value::Tag(t, inner) => encode_tag(value, enc),
        Value::Array(a) => encode_array(value, enc),
        Value::Mapping(m) => encode_mapping(value, enc),
        _ => encode_scalar(value, enc),
    }
}

/// Writes the wire form of each item of an array, in order.
#[verifier::loop_isolation(false)]
fn encode_items(a: &Vec<Value>, enc: &mut Encoder)
    requires
        forall|i: int| 0 <= i < a@.len() ==> (#[trigger] a@[i]).wf(),
    ensures
        final(enc)@ == old(enc)@ + spec_encode_items(crate::value::views_of(a@)),
    decreases a, 2int,
{
    let ghost views = crate::value::views_of(a@);
    let mut i: usize = 0;
    while i < a.len()
        invariant
            i <= a@.len(),
            enc@ == old(enc)@ + spec_encode_prefix_items(views, i as int),
        decreases a@.len() - i,
    {
        proof {
            assert(decreases_to!(*a => a@));
            assert(decreases_to!(a@ => a@[i as int]));
            assert(a@[i as int]@ == views[i as int]);
        }
        encode_value(&a[i], enc);
        proof {
            lemma_encode_prefix_items_step(views, i as int);
            assert(enc@ =~= old(enc)@ + spec_encode_prefix_items(views, i + 1 as int));
        }
        i = i + 1;
    }
    proof {
        lemma_encode_prefix_items_all(views);
        assert(enc@ =~= old(enc)@ + spec_encode_items(views));
    }
}

/// Writes the wire form of each entry of a map, key then value, in order.
#[verifier::loop_isolation(false)]
fn encode_entries(m: &Vec<(Value, Value)>, enc: &mut Encoder)
    requires
        forall|i: int|
            0 <= i < m@.len() ==> ((#[trigger] m@[i]).0.wf() && m@[i].1.wf()),
    ensures
        final(enc)@ == old(enc)@ + spec_encode_entries(crate::value::entry_views_of(m@)),
    decreases m, 2int,
{
    let ghost views = crate::value::entry_views_of(m@);
    let mut i: usize = 0;
    while i < m.len()
        invariant
            i <= m@.len(),
            enc@ == old(enc)@ + spec_encode_prefix_entries(views, i as int),
        decreases m@.len() - i,
    {
        proof {
            assert(decreases_to!(*m => m@));
            assert(decreases_to!(m@ => m@[i as int]));
            assert(decreases_to!(m@[i as int] => m@[i as int].0));
            assert(decreases_to!(m@[i as int] => m@[i as int].1));
            assert(m@[i as int].0@ == views[i as int].0);
            assert(m@[i as int].1@ == views[i as int].1);
        }
        encode_value(&m[i].0, enc);
        encode_value(&m[i].1, enc);
        proof {
            lemma_encode_prefix_entries_step(views, i as int);
            assert(enc@ =~= old(enc)@ + spec_encode_prefix_entries(views, i + 1 as int));
        }
        i = i + 1;
    }
    proof {
        lemma_encode_prefix_entries_all(views);
        assert(enc@ =~= old(enc)@ + spec_encode_entries(views));
    }
}

/// The wire bytes of the first `n` items of a sequence.
pub open spec fn spec_encode_prefix_items(s: Seq<ValueView>, n: int) -> Seq<u8> {
    spec_encode_items(s.take(n))
}

/// The wire bytes of the first `n` entries of a map.
pub open spec fn spec_encode_prefix_entries(s: Seq<(ValueView, ValueView)>, n: int) -> Seq<u8> {
    spec_encode_entries(s.take(n))
}

/// Appending one item to an encoded prefix encodes the longer prefix.
#[verifier::rlimit(100)]
#[verifier::spinoff_prover]
proof fn lemma_encode_prefix_items_step(s: Seq<ValueView>, n: int)
    requires
        0 <= n < s.len(),
    ensures
        spec_encode_prefix_items(s, n + 1) == spec_encode_prefix_items(s, n) + spec_encode(s[n]),
    decreases n,
{
    if n == 0 {
        assert(s.take(0) =~= Seq::empty());
        assert(s.take(1).drop_first() =~= Seq::<ValueView>::empty());
        assert(s.take(1)[0] == s[0]);
        assert(spec_encode(s.take(1)[0]) == spec_encode(s[0]));
        assert(spec_encode_items(s.take(1)) == spec_encode(s.take(1)[0]) + spec_encode_items(
            s.take(1).drop_first(),
        ));
        assert(spec_encode_items(s.take(1).drop_first()) =~= Seq::<u8>::empty());
        assert(spec_encode_items(s.take(1)) =~= spec_encode(s[0]));
        assert(spec_encode_prefix_items(s, 1) =~= spec_encode_prefix_items(s, 0) + spec_encode(
            s[0],
        ));
    } else {
        lemma_encode_prefix_items_step(s.drop_first(), n - 1);
        assert(s.take(n + 1).drop_first() =~= s.drop_first().take(n));
        assert(s.take(n).drop_first() =~= s.drop_first().take(n - 1));
        assert(s.take(n + 1)[0] == s[0]);
        assert(s.take(n)[0] == s[0]);
        assert(spec_encode(s.take(n + 1)[0]) == spec_encode(s[0]));
        assert(spec_encode(s.take(n)[0]) == spec_encode(s[0]));
        assert(s.drop_first()[n - 1] == s[n]);
        assert(spec_encode_items(s.take(n + 1)) == spec_encode(s[0]) + spec_encode_items(
            s.drop_first().take(n),
        ));
        assert(spec_encode_items(s.take(n)) == spec_encode(s[0]) + spec_encode_items(
            s.drop_first().take(n - 1),
        ));
        assert(spec_encode_prefix_items(s, n + 1) =~= spec_encode_prefix_items(s, n)
            + spec_encode(s[n]));
    }
}

/// The full prefix is the whole sequence.
proof fn lemma_encode_prefix_items_all(s: Seq<ValueView>)
    ensures
        spec_encode_prefix_items(s, s.len() as int) == spec_encode_items(s),
        spec_encode_prefix_items(s, 0) == Seq::<u8>::empty(),
{
    assert(s.take(s.len() as int) =~= s);
    assert(s.take(0) =~= Seq::<ValueView>::empty());
}

/// Appending one entry to an encoded prefix encodes the longer prefix.
#[verifier::rlimit(100)]
#[verifier::spinoff_prover]
proof fn lemma_encode_prefix_entries_step(s: Seq<(ValueView, ValueView)>, n: int)
    requires
        0 <= n < s.len(),
    ensures
        spec_encode_prefix_entries(s, n + 1) == spec_encode_prefix_entries(s, n) + spec_encode(
            s[n].0,
        ) + spec_encode(s[n].1),
    decreases n,
{
    if n == 0 {
        assert(s.take(0) =~= Seq::empty());
        assert(s.take(1).drop_first() =~= Seq::<(ValueView, ValueView)>::empty());
        assert(s.take(1)[0] == s[0]);
        assert(spec_encode(s.take(1)[0].0) == spec_encode(s[0].0));
        assert(spec_encode(s.take(1)[0].1) == spec_encode(s[0].1));
        assert(spec_encode_entries(s.take(1)) == spec_encode(s.take(1)[0].0) + spec_encode(
            s.take(1)[0].1,
        ) + spec_encode_entries(s.take(1).drop_first()));
        assert(spec_encode_entries(s.take(1).drop_first()) =~= Seq::<u8>::empty());
        assert(spec_encode_entries(s.take(1)) =~= spec_encode(s[0].0) + spec_encode(s[0].1));
        assert(spec_encode_prefix_entries(s, 1) =~= spec_encode_prefix_entries(s, 0) + spec_encode(
            s[0].0,
        ) + spec_encode(s[0].1));
    } else {
        lemma_encode_prefix_entries_step(s.drop_first(), n - 1);
        assert(s.take(n + 1).drop_first() =~= s.drop_first().take(n));
        assert(s.take(n).drop_first() =~= s.drop_first().take(n - 1));
        assert(s.take(n + 1)[0] == s[0]);
        assert(s.take(n)[0] == s[0]);
        assert(s.drop_first()[n - 1] == s[n]);
        assert(spec_encode_entries(s.take(n + 1)) == spec_encode(s[0].0) + spec_encode(s[0].1)
            + spec_encode_entries(s.drop_first().take(n)));
        assert(spec_encode_entries(s.take(n)) == spec_encode(s[0].0) + spec_encode(s[0].1)
            + spec_encode_entries(s.drop_first().take(n - 1)));
        assert(spec_encode_prefix_entries(s, n + 1) =~= spec_encode_prefix_entries(s, n)
            + spec_encode(s[n].0) + spec_encode(s[n].1));
    }
}

/// The full prefix is the whole sequence.
proof fn lemma_encode_prefix_entries_all(s: Seq<(ValueView, ValueView)>)
    ensures
        spec_encode_prefix_entries(s, s.len() as int) == spec_encode_entries(s),
        spec_encode_prefix_entries(s, 0) == Seq::<u8>::empty(),
{
    assert(s.take(s.len() as int) =~= s);
    assert(s.take(0) =~= Seq::<(ValueView, ValueView)>::empty());
}

/// Serializes a value as CBOR into a byte sink.
pub fn into_writer(value: &Value, writer: &mut Vec<u8>)
    requires
        value.wf(),
    ensures
        final(writer)@ == old(writer)@ + spec_encode(value@),
{
    let mut tmp: Vec<u8> = Vec::new();
    core::mem::swap(writer, &mut tmp);
    let mut enc = Encoder { bytes: tmp };
    encode_value(value, &mut enc);
    let mut out = enc.into_vec();
    core::mem::swap(writer, &mut out);
}

/// Serializes a value as CBOR into a fresh byte vector.
pub fn to_vec(value: &Value) -> (r: Vec<u8>)
    requires
        value.wf(),
    ensures
        r@ == spec_encode(value@),
{
    let mut enc = Encoder::new();
    encode_value(value, &mut enc);
    enc.into_vec()
}

/// The order a deterministic encoder sorts serialized map keys by: bytewise
/// lexicographic for RFC 8949, length-first for RFC 7049.
pub open spec fn ser_key_cmp(scheme: CanonicalizationScheme, x: Seq<u8>, y: Seq<u8>) -> core::cmp::Ordering {
    match scheme {
        CanonicalizationScheme::Rfc8949 => lex_cmp(x, y),
        CanonicalizationScheme::Rfc7049 => if x.len() < y.len() {
            core::cmp::Ordering::Less
        } else if x.len() > y.len() {
            core::cmp::Ordering::Greater
        } else {
            lex_cmp(x, y)
        },
    }
}

/// Stable insertion of one serialized entry into a key-sorted list: the
/// entry lands after every entry whose key does not compare greater.
pub open spec fn spec_insert_ser(
    t: Seq<(Seq<u8>, Seq<u8>)>,
    e: (Seq<u8>, Seq<u8>),
    scheme: CanonicalizationScheme,
) -> Seq<(Seq<u8>, Seq<u8>)>
    decreases t.len(),
{
    if t.len() == 0 {
        seq![e]
    } else if ser_key_cmp(scheme, t.last().0, e.0) == core::cmp::Ordering::Greater {
        spec_insert_ser(t.drop_last(), e, scheme) + seq![t.last()]
    } else {
        t.push(e)
    }
}

/// Stable insertion sort of serialized entries by their keys.
pub open spec fn spec_sort_ser(
    s: Seq<(Seq<u8>, Seq<u8>)>,
    scheme: CanonicalizationScheme,
) -> Seq<(Seq<u8>, Seq<u8>)>
    decreases s.len(),
{
    if s.len() == 0 {
        Seq::empty()
    } else {
        spec_insert_ser(spec_sort_ser(s.drop_last(), scheme), s.last(), scheme)
    }
}

/// Serialized entries written out: each key followed by its value.
pub open spec fn spec_flatten_pairs(s: Seq<(Seq<u8>, Seq<u8>)>) -> Seq<u8>
    decreases s.len(),
{
    if s.len() == 0 {
        Seq::empty()
    } else {
        s[0].0 + s[0].1 + spec_flatten_pairs(s.drop_first())
    }
}

/// The deterministic wire bytes of a value under a canonicalization scheme:
/// containers take definite lengths, arrays keep their element order, and
/// map entries are written in the order of their serialized keys.
#[verifier::opaque]
pub open spec fn spec_canonical_encode(v: ValueView, scheme: CanonicalizationScheme) -> Seq<u8>
    decreases v, 1int,
{
    match v {
        ValueView::Tag(t, inner) => Header::Tag(t).spec_bytes() + spec_canonical_encode(
            *inner,
            scheme,
        ),
        ValueView::Array(a) => Header::Array(Some(a.len() as usize)).spec_bytes()
            + spec_canon_items(a, scheme),
        ValueView::Mapping(m) => Header::Mapping(Some(m.len() as usize)).spec_bytes()
            + spec_flatten_pairs(spec_sort_ser(spec_canon_pairs(m, scheme), scheme)),
        _ => spec_encode(v),
    }
}

/// The concatenated deterministic wire bytes of a sequence of items.
pub open spec fn spec_canon_items(s: Seq<ValueView>, scheme: CanonicalizationScheme) -> Seq<u8>
    decreases s, 0int,
{
    if s.len() == 0 {
        Seq::empty()
    } else {
        spec_canonical_encode(s[0], scheme) + spec_canon_items(s.drop_first(), scheme)
    }
}

/// The deterministic wire bytes of each entry of a map, in insertion order.
pub open spec fn spec_canon_pairs(
    m: Seq<(ValueView, ValueView)>,
    scheme: CanonicalizationScheme,
) -> Seq<(Seq<u8>, Seq<u8>)>
    decreases m, 0int,
    via spec_canon_pairs_decreases
{
    Seq::new(
        m.len(),
        |i: int|
            if 0 <= i < m.len() {
                (spec_canonical_encode(m[i].0, scheme), spec_canonical_encode(m[i].1, scheme))
            } else {
                (Seq::empty(), Seq::empty())
            },
    )
}

#[via_fn]
proof fn spec_canon_pairs_decreases(m: Seq<(ValueView, ValueView)>, scheme: CanonicalizationScheme) {
    assert forall|i: int|
        0 <= i < m.len() implies decreases_to!(m => m[i].0) && decreases_to!(m => m[i].1) by {
        assert(decreases_to!(m => m[i]));
        assert(decreases_to!(m[i] => m[i].0));
        assert(decreases_to!(m[i] => m[i].1));
    }
}

/// The serialized views of a list of serialized entries.
pub open spec fn byte_pair_views(s: Seq<(Vec<u8>, Vec<u8>)>) -> Seq<(Seq<u8>, Seq<u8>)> {
    Seq::new(
        s.len(),
        |i: int|
            if 0 <= i < s.len() {
                (s[i].0@, s[i].1@)
            } else {
                (Seq::empty(), Seq::empty())
            },
    )
}

/// The deterministic wire bytes of the first `n` items of a sequence.
pub open spec fn spec_canon_prefix_items(
    s: Seq<ValueView>,
    scheme: CanonicalizationScheme,
    n: int,
) -> Seq<u8> {
    spec_canon_items(s.take(n), scheme)
}

/// Appending one item extends a deterministic prefix.
#[verifier::rlimit(100)]
#[verifier::spinoff_prover]
proof fn lemma_canon_prefix_items_step(s: Seq<ValueView>, scheme: CanonicalizationScheme, n: int)
    requires
        0 <= n < s.len(),
    ensures
        spec_canon_prefix_items(s, scheme, n + 1) == spec_canon_prefix_items(s, scheme, n)
            + spec_canonical_encode(s[n], scheme),
    decreases n,
{
    if n == 0 {
        assert(s.take(0) =~= Seq::empty());
        assert(s.take(1).drop_first() =~= Seq::<ValueView>::empty());
        assert(s.take(1)[0] == s[0]);
        assert(spec_canonical_encode(s.take(1)[0], scheme) == spec_canonical_encode(s[0], scheme));
        assert(spec_canon_items(s.take(1), scheme) == spec_canonical_encode(s.take(1)[0], scheme)
            + spec_canon_items(s.take(1).drop_first(), scheme));
        assert(spec_canon_items(s.take(1).drop_first(), scheme) =~= Seq::<u8>::empty());
        assert(spec_canon_items(s.take(1), scheme) =~= spec_canonical_encode(s[0], scheme));
        assert(spec_canon_prefix_items(s, scheme, 1) =~= spec_canon_prefix_items(s, scheme, 0)
            + spec_canonical_encode(s[0], scheme));
    } else {
        lemma_canon_prefix_items_step(s.drop_first(), scheme, n - 1);
        assert(s.take(n + 1).drop_first() =~= s.drop_first().take(n));
        assert(s.take(n).drop_first() =~= s.drop_first().take(n - 1));
        assert(s.take(n + 1)[0] == s[0]);
        assert(s.take(n)[0] == s[0]);
        assert(spec_canonical_encode(s.take(n + 1)[0], scheme) == spec_canonical_encode(
            s[0],
            scheme,
        ));
        assert(spec_canonical_encode(s.take(n)[0], scheme) == spec_canonical_encode(s[0], scheme));
        assert(s.drop_first()[n - 1] == s[n]);
        assert(spec_canon_items(s.take(n + 1), scheme) == spec_canonical_encode(s[0], scheme)
            + spec_canon_items(s.drop_first().take(n), scheme));
        assert(spec_canon_items(s.take(n), scheme) == spec_canonical_encode(s[0], scheme)
            + spec_canon_items(s.drop_first().take(n - 1), scheme));
        assert(spec_canon_prefix_items(s, scheme, n + 1) =~= spec_canon_prefix_items(s, scheme, n)
            + spec_canonical_encode(s[n], scheme));
    }
}

/// The full deterministic prefix is the whole sequence.
proof fn lemma_canon_prefix_items_all(s: Seq<ValueView>, scheme: CanonicalizationScheme)
    ensures
        spec_canon_prefix_items(s, scheme, s.len() as int) == spec_canon_items(s, scheme),
        spec_canon_prefix_items(s, scheme, 0) == Seq::<u8>::empty(),
{
    assert(s.take(s.len() as int) =~= s);
    assert(s.take(0) =~= Seq::<ValueView>::empty());
}

/// The first `n` serialized entries, written out.
pub open spec fn spec_flatten_prefix(s: Seq<(Seq<u8>, Seq<u8>)>, n: int) -> Seq<u8> {
    spec_flatten_pairs(s.take(n))
}

/// Appending one entry extends a written-out prefix.
#[verifier::rlimit(100)]
#[verifier::spinoff_prover]
proof fn lemma_flatten_prefix_step(s: Seq<(Seq<u8>, Seq<u8>)>, n: int)
    requires
        0 <= n < s.len(),
    ensures
        spec_flatten_prefix(s, n + 1) == spec_flatten_prefix(s, n) + s[n].0 + s[n].1,
    decreases n,
{
    if n == 0 {
        assert(s.take(0) =~= Seq::empty());
        assert(s.take(1).drop_first() =~= Seq::<(Seq<u8>, Seq<u8>)>::empty());
        assert(s.take(1)[0] == s[0]);
        assert(spec_flatten_pairs(s.take(1)) == s.take(1)[0].0 + s.take(1)[0].1
            + spec_flatten_pairs(s.take(1).drop_first()));
        assert(spec_flatten_pairs(s.take(1).drop_first()) =~= Seq::<u8>::empty());
        assert(spec_flatten_prefix(s, 1) =~= spec_flatten_prefix(s, 0) + s[0].0 + s[0].1);
    } else {
        lemma_flatten_prefix_step(s.drop_first(), n - 1);
        assert(s.take(n + 1).drop_first() =~= s.drop_first().take(n));
        assert(s.take(n).drop_first() =~= s.drop_first().take(n - 1));
        assert(s.take(n + 1)[0] == s[0]);
        assert(s.take(n)[0] == s[0]);
        assert(s.drop_first()[n - 1] == s[n]);
        assert(spec_flatten_pairs(s.take(n + 1)) == s[0].0 + s[0].1 + spec_flatten_pairs(
            s.drop_first().take(n),
        ));
        assert(spec_flatten_pairs(s.take(n)) == s[0].0 + s[0].1 + spec_flatten_pairs(
            s.drop_first().take(n - 1),
        ));
        assert(spec_flatten_prefix(s, n + 1) =~= spec_flatten_prefix(s, n) + s[n].0 + s[n].1);
    }
}

/// The full written-out prefix is the whole sequence.
proof fn lemma_flatten_prefix_all(s: Seq<(Seq<u8>, Seq<u8>)>)
    ensures
        spec_flatten_prefix(s, s.len() as int) == spec_flatten_pairs(s),
        spec_flatten_prefix(s, 0) == Seq::<u8>::empty(),
{
    assert(s.take(s.len() as int) =~= s);
    assert(s.take(0) =~= Seq::<(Seq<u8>, Seq<u8>)>::empty());
}

/// Compares two serialized keys under a scheme.
fn key_cmp(scheme: CanonicalizationScheme, x: &Vec<u8>, y: &Vec<u8>) -> (r: core::cmp::Ordering)
    ensures
        r == ser_key_cmp(scheme, x@, y@),
{
    match scheme {
        CanonicalizationScheme::Rfc8949 => crate::value::canonical::lex_vec_cmp(x, y),
        CanonicalizationScheme::Rfc7049 => {
            if x.len() < y.len() {
                core::cmp::Ordering::Less
            } else if x.len() > y.len() {
                core::cmp::Ordering::Greater
            } else {
                crate::value::canonical::lex_vec_cmp(x, y)
            }
        },
    }
}

/// Inserting at the position that an end-to-front scan finds is the stable
/// insertion.
#[verifier::rlimit(100)]
proof fn lemma_spec_insert_ser_at(
    t: Seq<(Seq<u8>, Seq<u8>)>,
    e: (Seq<u8>, Seq<u8>),
    scheme: CanonicalizationScheme,
    j: int,
)
    requires
        0 <= j <= t.len(),
        forall|k: int|
            j <= k < t.len() ==> ser_key_cmp(scheme, (#[trigger] t[k]).0, e.0)
                == core::cmp::Ordering::Greater,
        j > 0 ==> ser_key_cmp(scheme, t[j - 1].0, e.0) != core::cmp::Ordering::Greater,
    ensures
        spec_insert_ser(t, e, scheme) == t.take(j).push(e) + t.skip(j),
    decreases t.len(),
{
    if j == t.len() {
        if t.len() == 0 {
            assert(spec_insert_ser(t, e, scheme) =~= t.take(j).push(e) + t.skip(j));
        } else {
            assert(spec_insert_ser(t, e, scheme) == t.push(e));
            assert(t.take(j) =~= t);
            assert(t.skip(j) =~= Seq::<(Seq<u8>, Seq<u8>)>::empty());
            assert(t.push(e) =~= t.take(j).push(e) + t.skip(j));
        }
    } else {
        assert(ser_key_cmp(scheme, t.last().0, e.0) == core::cmp::Ordering::Greater);
        lemma_spec_insert_ser_at(t.drop_last(), e, scheme, j);
        assert(t.drop_last().take(j) =~= t.take(j));
        assert(spec_insert_ser(t, e, scheme) == spec_insert_ser(t.drop_last(), e, scheme) + seq![
            t.last(),
        ]);
        assert(t.drop_last().take(j).push(e) + t.drop_last().skip(j) + seq![t.last()] =~= t.take(
            j,
        ).push(e) + t.skip(j));
    }
}

/// Inserts one serialized entry into a key-sorted list, after every entry
/// whose key does not compare greater.
#[verifier::loop_isolation(false)]
fn insert_ser(out: &mut Vec<(Vec<u8>, Vec<u8>)>, e: (Vec<u8>, Vec<u8>), scheme: CanonicalizationScheme)
    ensures
        byte_pair_views(final(out)@) == spec_insert_ser(
            byte_pair_views(old(out)@),
            (e.0@, e.1@),
            scheme,
        ),
{
    let ghost t = byte_pair_views(out@);
    let ghost ev = (e.0@, e.1@);
    let mut j: usize = out.len();
    while j > 0 && matches!(
        key_cmp(scheme, &out[j - 1].0, &e.0),
        core::cmp::Ordering::Greater,
    )
        invariant
            j <= out@.len(),
            forall|k: int|
                j <= k < out@.len() ==> ser_key_cmp(scheme, (#[trigger] t[k]).0, ev.0)
                    == core::cmp::Ordering::Greater,
        decreases j,
    {
        j = j - 1;
    }
    proof {
        lemma_spec_insert_ser_at(t, ev, scheme, j as int);
    }
    let ghost before = out@;
    out.insert(j, e);
    proof {
        assert(byte_pair_views(out@) =~= byte_pair_views(before).take(j as int).push(ev)
            + byte_pair_views(before).skip(j as int));
    }
}

/// Sorts serialized map entries by their keys under the given scheme, as a
/// deterministic encoder does before writing a map: bytewise lexicographic
/// for RFC 8949, length-first for RFC 7049, keeping the order of entries
/// with equal keys.
#[verifier::loop_isolation(false)]
pub fn sort_serialized_entries(
    entries: Vec<(Vec<u8>, Vec<u8>)>,
    scheme: CanonicalizationScheme,
) -> (r: Vec<(Vec<u8>, Vec<u8>)>)
    ensures
        byte_pair_views(r@) == spec_sort_ser(byte_pair_views(entries@), scheme),
{
    let ghost s = byte_pair_views(entries@);
    let ghost orig = entries@;
    let mut src = entries;
    let mut out: Vec<(Vec<u8>, Vec<u8>)> = Vec::new();
    let ghost mut i: int = 0;
    proof {
        assert(byte_pair_views(out@) =~= Seq::<(Seq<u8>, Seq<u8>)>::empty());
        assert(spec_sort_ser(s.take(0), scheme) =~= Seq::<(Seq<u8>, Seq<u8>)>::empty());
        assert(src@ =~= orig.skip(0));
    }
    while src.len() > 0
        invariant
            0 <= i <= orig.len(),
            orig.len() == s.len(),
            src@ == orig.skip(i),
            forall|k: int|
                0 <= k < orig.len() ==> ((#[trigger] orig[k]).0@, orig[k].1@) == s[k],
            byte_pair_views(out@) == spec_sort_ser(s.take(i), scheme),
        decreases src@.len(),
    {
        let kv = src.remove(0);
        proof {
            assert(orig.skip(i)[0] == orig[i]);
            assert(kv == orig[i]);
            assert(src@ =~= orig.skip(i + 1));
        }
        insert_ser(&mut out, kv, scheme);
        proof {
            assert(s.take(i + 1).drop_last() =~= s.take(i));
            assert(s.take(i + 1).last() == s[i]);
            i = i + 1;
        }
    }
    proof {
        assert(i == s.len());
        assert(s.take(s.len() as int) =~= s);
    }
    out
}

/// Appends all bytes of `src` to `out`.
fn push_all(out: &mut Vec<u8>, src: &Vec<u8>)
    ensures
        final(out)@ == old(out)@ + src@,
{
    let mut i: usize = 0;
    while i < src.len()
        invariant
            i <= src@.len(),
            out@ == old(out)@ + src@.take(i as int),
        decreases src@.len() - i,
    {
        out.push(src[i]);
        assert(out@ =~= old(out)@ + src@.take(i + 1 as int));
        i = i + 1;
    }
    assert(out@ =~= old(out)@ + src@);
}

/// Serializes a value deterministically under the given scheme: definite
/// lengths everywhere, array order kept, map entries written in the order
/// of their serialized keys.
pub fn to_vec_canonical(value: &Value, scheme: CanonicalizationScheme) -> (r: Vec<u8>)
    requires
        value.wf(),
    ensures
        r@ == spec_canonical_encode(value@, scheme),
    decreases value, 1int,
{
    match value {
        Value::Tag(t, inner) => canon_tag_vec(value, scheme),
        Value::Array(a) => canon_array_vec(value, scheme),
        Value::Mapping(m) => canon_mapping_arm_vec(value, scheme),
        _ => {
            let ghost gv = value@;
            let r = to_vec(value);
            proof {
                reveal(spec_canonical_encode);
                assert(spec_canonical_encode(gv, scheme) == spec_encode(gv));
            }
            r
        },
    }
}

/// Serializes a tagged value deterministically.
#[verifier::rlimit(100)]
fn canon_tag_vec(value: &Value, scheme: CanonicalizationScheme) -> (r: Vec<u8>)
    requires
        value.wf(),
        *value is Tag,
    ensures
        r@ == spec_canonical_encode(value@, scheme),
    decreases value, 0int,
{
    proof {
        reveal(spec_canonical_encode);
    }
    match value {
        Value::Tag(t, inner) => {
            let mut enc = Encoder::new();
            enc.encode(&Header::Tag(*t));
            let mut out = enc.into_vec();
            proof {
                assert(decreases_to!(*value => **inner));
            }
            let mut ib = to_vec_canonical(&**inner, scheme);
            out.append(&mut ib);
            proof {
                let iv = value@->Tag_1;
                assert(spec_canonical_encode(value@, scheme) == Header::Tag(
                    value@->Tag_0,
                ).spec_bytes() + spec_canonical_encode(*iv, scheme));
                assert(out@ =~= spec_canonical_encode(value@, scheme));
            }
            out
        },
        _ => {
            proof {
                assert(false);
            }
            Vec::new()
        },
    }
}

/// Serializes an array deterministically.
#[verifier::rlimit(100)]
fn canon_array_vec(value: &Value, scheme: CanonicalizationScheme) -> (r: Vec<u8>)
    requires
        value.wf(),
        *value is Array,
    ensures
        r@ == spec_canonical_encode(value@, scheme),
    decreases value, 0int,
{
    proof {
        reveal(spec_canonical_encode);
    }
    match value {
        Value::Array(a) => {
            let mut enc = Encoder::new();
            enc.encode(&Header::Array(Some(a.len())));
            let mut out = enc.into_vec();
            proof {
                assert(decreases_to!(*value => *a));
                assert(value@->Array_0 =~= crate::value::views_of(a@));
                assert(forall|j: int| 0 <= j < a@.len() ==> (#[trigger] a@[j]).wf());
            }
            let mut items = canon_items_vec(a, scheme);
            out.append(&mut items);
            proof {
                assert(out@ =~= spec_canonical_encode(value@, scheme));
            }
            out
        },
        _ => {
            proof {
                assert(false);
            }
            Vec::new()
        },
    }
}

/// Serializes a map deterministically: header, then the entries in the
/// order of their serialized keys.
#[verifier::rlimit(100)]
fn canon_mapping_arm_vec(value: &Value, scheme: CanonicalizationScheme) -> (r: Vec<u8>)
    requires
        value.wf(),
        *value is Mapping,
    ensures
        r@ == spec_canonical_encode(value@, scheme),
    decreases value, 0int,
{
    proof {
        reveal(spec_canonical_encode);
    }
    match value {
        Value::Mapping(m) => {
            let mut enc = Encoder::new();
            enc.encode(&Header::Mapping(Some(m.len())));
            let mut out = enc.into_vec();
            proof {
                assert(decreases_to!(*value => *m));
                assert(value@->Mapping_0 =~= crate::value::entry_views_of(m@));
                assert(forall|j: int|
                    0 <= j < m@.len() ==> ((#[trigger] m@[j]).0.wf() && m@[j].1.wf()));
            }
            let mut body = canon_mapping_vec(m, scheme);
            out.append(&mut body);
            proof {
                assert(spec_canon_pairs(value@->Mapping_0, scheme) =~= spec_canon_pairs(
                    crate::value::entry_views_of(m@),
                    scheme,
                ));
                assert(out@ =~= spec_canonical_encode(value@, scheme));
            }
            out
        },
        _ => {
            proof {
                assert(false);
            }
            Vec::new()
        },
    }
}

/// Serializes each item of an array deterministically, in order.
#[verifier::loop_isolation(false)]
fn canon_items_vec(a: &Vec<Value>, scheme: CanonicalizationScheme) -> (r: Vec<u8>)
    requires
        forall|i: int| 0 <= i < a@.len() ==> (#[trigger] a@[i]).wf(),
    ensures
        r@ == spec_canon_items(crate::value::views_of(a@), scheme),
    decreases a, 2int,
{
    let ghost views = crate::value::views_of(a@);
    let mut out: Vec<u8> = Vec::new();
    let mut i: usize = 0;
    proof {
        lemma_canon_prefix_items_all(views, scheme);
    }
    while i < a.len()
        invariant
            i <= a@.len(),
            out@ == spec_canon_prefix_items(views, scheme, i as int),
        decreases a@.len() - i,
    {
        proof {
            assert(decreases_to!(*a => a@));
            assert(decreases_to!(a@ => a@[i as int]));
            assert(a@[i as int]@ == views[i as int]);
        }
        let mut ib = to_vec_canonical(&a[i], scheme);
        out.append(&mut ib);
        proof {
            lemma_canon_prefix_items_step(views, scheme, i as int);
            assert(out@ =~= spec_canon_prefix_items(views, scheme, i + 1 as int));
        }
        i = i + 1;
    }
    proof {
        lemma_canon_prefix_items_all(views, scheme);
    }
    out
}

/// Serializes the entries of a map deterministically and writes them out in
/// the order of their serialized keys.
#[verifier::loop_isolation(false)]
fn canon_mapping_vec(m: &Vec<(Value, Value)>, scheme: CanonicalizationScheme) -> (r: Vec<u8>)
    requires
        forall|i: int| 0 <= i < m@.len() ==> ((#[trigger] m@[i]).0.wf() && m@[i].1.wf()),
    ensures
        r@ == spec_flatten_pairs(
            spec_sort_ser(
                spec_canon_pairs(crate::value::entry_views_of(m@), scheme),
                scheme,
            ),
        ),
    decreases m, 2int,
{
    let ghost sm = crate::value::entry_views_of(m@);
    let mut pairs: Vec<(Vec<u8>, Vec<u8>)> = Vec::new();
    let mut i: usize = 0;
    while i < m.len()
        invariant
            i <= m@.len(),
            pairs@.len() == i,
            forall|j: int|
                0 <= j < i ==> ((#[trigger] pairs@[j]).0@ == spec_canonical_encode(
                    sm[j].0,
                    scheme,
                ) && pairs@[j].1@ == spec_canonical_encode(sm[j].1, scheme)),
        decreases m@.len() - i,
    {
        proof {
            assert(decreases_to!(*m => m@));
            assert(decreases_to!(m@ => m@[i as int]));
            assert(decreases_to!(m@[i as int] => m@[i as int].0));
            assert(decreases_to!(m@[i as int] => m@[i as int].1));
            assert(sm[i as int] == (m@[i as int].0@, m@[i as int].1@));
        }
        let kb = to_vec_canonical(&m[i].0, scheme);
        let vb = to_vec_canonical(&m[i].1, scheme);
        pairs.push((kb, vb));
        i = i + 1;
    }
    proof {
        assert forall|j: int|
            0 <= j < pairs@.len() implies byte_pair_views(pairs@)[j] == spec_canon_pairs(
            sm,
            scheme,
        )[j] by {
            reveal(spec_canonical_encode);
            assert(byte_pair_views(pairs@)[j] == (pairs@[j].0@, pairs@[j].1@));
            assert(sm.len() == m@.len());
            assert(0 <= j < sm.len());
            assert(spec_canon_pairs(sm, scheme).len() == sm.len());
            assert(spec_canon_pairs(sm, scheme)[j] == (
                spec_canonical_encode(sm[j].0, scheme),
                spec_canonical_encode(sm[j].1, scheme),
            ));
        }
        assert(byte_pair_views(pairs@) =~= spec_canon_pairs(sm, scheme));
    }
    let sorted = sort_serialized_entries(pairs, scheme);
    let ghost sv = byte_pair_views(sorted@);
    let mut out: Vec<u8> = Vec::new();
    let mut j: usize = 0;
    proof {
        lemma_flatten_prefix_all(sv);
    }
    while j < sorted.len()
        invariant
            j <= sorted@.len(),
            sv == byte_pair_views(sorted@),
            out@ == spec_flatten_prefix(sv, j as int),
        decreases sorted@.len() - j,
    {
        proof {
            assert(sv[j as int] == (sorted@[j as int].0@, sorted@[j as int].1@));
        }
        push_all(&mut out, &sorted[j].0);
        push_all(&mut out, &sorted[j].1);
        proof {
            lemma_flatten_prefix_step(sv, j as int);
            assert(out@ =~= spec_flatten_prefix(sv, j + 1 as int));
        }
        j = j + 1;
    }
    proof {
        lemma_flatten_prefix_all(sv);
        assert(sv == spec_sort_ser(spec_canon_pairs(sm, scheme), scheme));
    }
    out
}

} // verus!
