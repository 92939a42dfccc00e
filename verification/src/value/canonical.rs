//! Canonical comparison and canonicalization of dynamic values.

use vstd::prelude::*;
use crate::ser::{spec_encode, to_vec};
use crate::value::{view_of, Value, ValueView};
use crate::value::integer::spec_integer_canonical_cmp;

verus! {

/// Bytewise lexicographic comparison.
pub open spec fn lex_cmp(x: Seq<u8>, y: Seq<u8>) -> core::cmp::Ordering
    decreases x.len(),
{
    if x.len() == 0 && y.len() == 0 {
        core::cmp::Ordering::Equal
    } else if x.len() == 0 {
        core::cmp::Ordering::Less
    } else if y.len() == 0 {
        core::cmp::Ordering::Greater
    } else if x[0] < y[0] {
        core::cmp::Ordering::Less
    } else if x[0] > y[0] {
        core::cmp::Ordering::Greater
    } else {
        lex_cmp(x.drop_first(), y.drop_first())
    }
}

/// The canonical key order of RFC 7049 on whole serialized items: a shorter
/// encoding sorts earlier; encodings of one length compare bytewise.
pub open spec fn spec_serial_cmp(a: ValueView, b: ValueView) -> core::cmp::Ordering {
    if spec_encode(a).len() < spec_encode(b).len() {
        core::cmp::Ordering::Less
    } else if spec_encode(a).len() > spec_encode(b).len() {
        core::cmp::Ordering::Greater
    } else {
        lex_cmp(spec_encode(a), spec_encode(b))
    }
}

/// The canonical order on values: integers and texts by length first and
/// then content, tags by number and then by the tagged value, and any other
/// or mixed pair by serialized form.
pub open spec fn spec_cmp_value(a: ValueView, b: ValueView) -> core::cmp::Ordering
    decreases a,
{
    match (a, b) {
        (ValueView::Integer(x), ValueView::Integer(y)) => spec_integer_canonical_cmp(x, y),
        (ValueView::Text(x), ValueView::Text(y)) => {
            let bx = vstd::utf8::encode_utf8(x);
            let by = vstd::utf8::encode_utf8(y);
            if bx.len() < by.len() {
                core::cmp::Ordering::Less
            } else if bx.len() > by.len() {
                core::cmp::Ordering::Greater
            } else {
                lex_cmp(bx, by)
            }
        },
        (ValueView::Bool(x), ValueView::Bool(y)) => if x == y {
            core::cmp::Ordering::Equal
        } else if !x {
            core::cmp::Ordering::Less
        } else {
            core::cmp::Ordering::Greater
        },
        (ValueView::Null, ValueView::Null) => core::cmp::Ordering::Equal,
        (ValueView::Tag(t1, v1), ValueView::Tag(t2, v2)) => {
            let tc = spec_integer_canonical_cmp(t1 as int, t2 as int);
            if tc == core::cmp::Ordering::Equal {
                spec_cmp_value(*v1, *v2)
            } else {
                tc
            }
        },
        _ => spec_serial_cmp(a, b),
    }
}

/// A value after canonicalization: map entries sorted by the canonical
/// order of their keys (keeping the order of entries with equal keys), all
/// nested values canonicalized, scalars untouched.
pub open spec fn spec_canonical(v: ValueView) -> ValueView
    decreases v, 1int,
{
    match v {
        ValueView::Tag(t, inner) => ValueView::Tag(t, Box::new(spec_canonical(*inner))),
        ValueView::Array(a) => ValueView::Array(spec_canonical_items(a)),
        ValueView::Mapping(m) => ValueView::Mapping(spec_sort_entries(spec_canonical_entries(m))),
        _ => v,
    }
}

/// The canonical forms of the items of an array.
pub open spec fn spec_canonical_items(a: Seq<ValueView>) -> Seq<ValueView>
    decreases a, 0int,
    via spec_canonical_items_decreases
{
    Seq::new(
        a.len(),
        |i: int|
            if 0 <= i < a.len() {
                spec_canonical(a[i])
            } else {
                ValueView::Null
            },
    )
}

#[via_fn]
proof fn spec_canonical_items_decreases(a: Seq<ValueView>) {
    assert forall|i: int| 0 <= i < a.len() implies decreases_to!(a => a[i]) by {
        assert(decreases_to!(a => a[i]));
    }
}

/// The canonical forms of the entries of a map, in insertion order.
pub open spec fn spec_canonical_entries(m: Seq<(ValueView, ValueView)>) -> Seq<
    (ValueView, ValueView),
>
    decreases m, 0int,
    via spec_canonical_entries_decreases
{
    Seq::new(
        m.len(),
        |i: int|
            if 0 <= i < m.len() {
                (spec_canonical(m[i].0), spec_canonical(m[i].1))
            } else {
                (ValueView::Null, ValueView::Null)
            },
    )
}

#[via_fn]
proof fn spec_canonical_entries_decreases(m: Seq<(ValueView, ValueView)>) {
    assert forall|i: int|
        0 <= i < m.len() implies decreases_to!(m => m[i].0) && decreases_to!(m => m[i].1) by {
        assert(decreases_to!(m => m[i]));
        assert(decreases_to!(m[i] => m[i].0));
        assert(decreases_to!(m[i] => m[i].1));
    }
}

/// Stable insertion of one entry into a key-sorted entry list: the entry
/// lands after every entry whose key does not compare greater.
pub open spec fn spec_insert_entry(t: Seq<(ValueView, ValueView)>, e: (ValueView, ValueView)) -> Seq<
    (ValueView, ValueView),
>
    decreases t.len(),
{
    if t.len() == 0 {
        seq![e]
    } else if spec_cmp_value(t.last().0, e.0) == core::cmp::Ordering::Greater {
        spec_insert_entry(t.drop_last(), e) + seq![t.last()]
    } else {
        t.push(e)
    }
}

/// Stable insertion sort of map entries by the canonical order of keys.
pub open spec fn spec_sort_entries(s: Seq<(ValueView, ValueView)>) -> Seq<(ValueView, ValueView)>
    decreases s.len(),
{
    if s.len() == 0 {
        Seq::empty()
    } else {
        spec_insert_entry(spec_sort_entries(s.drop_last()), s.last())
    }
}

/// Skipping a common prefix does not change a lexicographic comparison.
proof fn lemma_lex_cmp_skip(x: Seq<u8>, y: Seq<u8>, i: int)
    requires
        x.len() == y.len(),
        0 <= i <= x.len(),
        forall|j: int| 0 <= j < i ==> x[j] == y[j],
    ensures
        lex_cmp(x, y) == lex_cmp(x.skip(i), y.skip(i)),
    decreases i,
{
    if i == 0 {
        assert(x.skip(0) =~= x);
        assert(y.skip(0) =~= y);
    } else {
        assert(x[0] == y[0]);
        assert(lex_cmp(x, y) == lex_cmp(x.drop_first(), y.drop_first()));
        lemma_lex_cmp_skip(x.drop_first(), y.drop_first(), i - 1);
        assert(x.drop_first().skip(i - 1) =~= x.skip(i));
        assert(y.drop_first().skip(i - 1) =~= y.skip(i));
    }
}

/// Skipping a common prefix does not change a lexicographic comparison,
/// whatever the tails' lengths.
proof fn lemma_lex_cmp_skip_common(x: Seq<u8>, y: Seq<u8>, i: int)
    requires
        0 <= i <= x.len(),
        i <= y.len(),
        forall|j: int| 0 <= j < i ==> x[j] == y[j],
    ensures
        lex_cmp(x, y) == lex_cmp(x.skip(i), y.skip(i)),
    decreases i,
{
    if i == 0 {
        assert(x.skip(0) =~= x);
        assert(y.skip(0) =~= y);
    } else {
        assert(x[0] == y[0]);
        assert(lex_cmp(x, y) == lex_cmp(x.drop_first(), y.drop_first()));
        lemma_lex_cmp_skip_common(x.drop_first(), y.drop_first(), i - 1);
        assert(x.drop_first().skip(i - 1) =~= x.skip(i));
        assert(y.drop_first().skip(i - 1) =~= y.skip(i));
    }
}

/// Compares two byte strings bytewise, a strict prefix sorting first.
pub(crate) fn lex_vec_cmp(x: &Vec<u8>, y: &Vec<u8>) -> (r: core::cmp::Ordering)
    ensures
        r == lex_cmp(x@, y@),
{
    let common = if x.len() < y.len() {
        x.len()
    } else {
        y.len()
    };
    let mut i: usize = 0;
    while i < common
        invariant
            common <= x@.len(),
            common <= y@.len(),
            i <= common,
            forall|j: int| 0 <= j < i ==> x@[j] == y@[j],
        decreases common - i,
    {
        if x[i] < y[i] {
            proof {
                lemma_lex_cmp_skip_common(x@, y@, i as int);
                assert(x@.skip(i as int)[0] == x@[i as int]);
                assert(y@.skip(i as int)[0] == y@[i as int]);
            }
            return core::cmp::Ordering::Less;
        }
        if x[i] > y[i] {
            proof {
                lemma_lex_cmp_skip_common(x@, y@, i as int);
                assert(x@.skip(i as int)[0] == x@[i as int]);
                assert(y@.skip(i as int)[0] == y@[i as int]);
            }
            return core::cmp::Ordering::Greater;
        }
        i = i + 1;
    }
    proof {
        lemma_lex_cmp_skip_common(x@, y@, common as int);
        if x@.len() == y@.len() {
            assert(x@.skip(common as int) =~= Seq::<u8>::empty());
            assert(y@.skip(common as int) =~= Seq::<u8>::empty());
        } else if x@.len() < y@.len() {
            assert(x@.skip(common as int) =~= Seq::<u8>::empty());
            assert(y@.skip(common as int).len() > 0);
        } else {
            assert(y@.skip(common as int) =~= Seq::<u8>::empty());
            assert(x@.skip(common as int).len() > 0);
        }
    }
    if x.len() == y.len() {
        core::cmp::Ordering::Equal
    } else if x.len() < y.len() {
        core::cmp::Ordering::Less
    } else {
        core::cmp::Ordering::Greater
    }
}

/// Compares two byte strings: by length first, then bytewise.
fn byte_vecs_cmp(x: &Vec<u8>, y: &Vec<u8>) -> (r: core::cmp::Ordering)
    ensures
        r == (if x@.len() < y@.len() {
            core::cmp::Ordering::Less
        } else if x@.len() > y@.len() {
            core::cmp::Ordering::Greater
        } else {
            lex_cmp(x@, y@)
        }),
{
    if x.len() < y.len() {
        return core::cmp::Ordering::Less;
    }
    if x.len() > y.len() {
        return core::cmp::Ordering::Greater;
    }
    let mut i: usize = 0;
    while i < x.len()
        invariant
            x@.len() == y@.len(),
            i <= x@.len(),
            forall|j: int| 0 <= j < i ==> x@[j] == y@[j],
        decreases x@.len() - i,
    {
        if x[i] < y[i] {
            proof {
                lemma_lex_cmp_skip(x@, y@, i as int);
                assert(x@.skip(i as int)[0] == x@[i as int]);
                assert(y@.skip(i as int)[0] == y@[i as int]);
            }
            return core::cmp::Ordering::Less;
        }
        if x[i] > y[i] {
            proof {
                lemma_lex_cmp_skip(x@, y@, i as int);
                assert(x@.skip(i as int)[0] == x@[i as int]);
                assert(y@.skip(i as int)[0] == y@[i as int]);
            }
            return core::cmp::Ordering::Greater;
        }
        i = i + 1;
    }
    proof {
        lemma_lex_cmp_skip(x@, y@, x@.len() as int);
        assert(x@.skip(x@.len() as int) =~= Seq::<u8>::empty());
        assert(y@.skip(y@.len() as int) =~= Seq::<u8>::empty());
    }
    core::cmp::Ordering::Equal
}

/// Compares two values by their full serialized forms, shorter first, then
/// bytewise.
pub fn serialized_canonical_cmp(v1: &Value, v2: &Value) -> (r: core::cmp::Ordering)
    requires
        v1.wf(),
        v2.wf(),
    ensures
        r == spec_serial_cmp(v1@, v2@),
{
    let b1 = to_vec(v1);
    let b2 = to_vec(v2);
    byte_vecs_cmp(&b1, &b2)
}

/// Compares two values in the canonical key order defined in RFC 7049
/// section 3.9 and RFC 8949 section 4.2.3: a shorter key sorts earlier, and
/// keys of one length sort bytewise.
pub fn cmp_value(v1: &Value, v2: &Value) -> (r: core::cmp::Ordering)
    requires
        v1.wf(),
        v2.wf(),
    ensures
        r == spec_cmp_value(v1@, v2@),
    decreases v1,
{
    match (v1, v2) {
        (Value::Integer(a), Value::Integer(b)) => a.canonical_cmp(b),
        (Value::Text(a), Value::Text(b)) => {
            let ba = a.as_str().as_bytes_vec();
            let bb = b.as_str().as_bytes_vec();
            byte_vecs_cmp(&ba, &bb)
        },
        (Value::Bool(a), Value::Bool(b)) => {
            if a == b {
                core::cmp::Ordering::Equal
            } else if !*a {
                core::cmp::Ordering::Less
            } else {
                core::cmp::Ordering::Greater
            }
        },
        (Value::Null, Value::Null) => core::cmp::Ordering::Equal,
        (Value::Tag(t1, x1), Value::Tag(t2, x2)) => {
            let tc = crate::value::integer::Integer::from_u64(*t1).canonical_cmp(
                &crate::value::integer::Integer::from_u64(*t2),
            );
            if matches!(tc, core::cmp::Ordering::Equal) {
                proof {
                    assert(decreases_to!(*v1 => **x1));
                }
                cmp_value(&**x1, &**x2)
            } else {
                tc
            }
        },
        _ => serialized_canonical_cmp(v1, v2),
    }
}

/// Inserting at the position that an end-to-front scan finds is the stable
/// insertion.
proof fn lemma_spec_insert_at(t: Seq<(ValueView, ValueView)>, e: (ValueView, ValueView), j: int)
    requires
        0 <= j <= t.len(),
        forall|k: int|
            j <= k < t.len() ==> spec_cmp_value((#[trigger] t[k]).0, e.0)
                == core::cmp::Ordering::Greater,
        j > 0 ==> spec_cmp_value(t[j - 1].0, e.0) != core::cmp::Ordering::Greater,
    ensures
        spec_insert_entry(t, e) == t.take(j).push(e) + t.skip(j),
    decreases t.len(),
{
    if j == t.len() {
        if t.len() == 0 {
            assert(spec_insert_entry(t, e) =~= t.take(j).push(e) + t.skip(j));
        } else {
            assert(spec_insert_entry(t, e) == t.push(e));
            assert(t.take(j) =~= t);
            assert(t.skip(j) =~= Seq::<(ValueView, ValueView)>::empty());
            assert(t.push(e) =~= t.take(j).push(e) + t.skip(j));
        }
    } else {
        assert(spec_cmp_value(t.last().0, e.0) == core::cmp::Ordering::Greater);
        lemma_spec_insert_at(t.drop_last(), e, j);
        assert(t.drop_last().take(j) =~= t.take(j));
        assert(spec_insert_entry(t, e) == spec_insert_entry(t.drop_last(), e) + seq![t.last()]);
        assert(t.drop_last().take(j).push(e) + t.drop_last().skip(j) + seq![t.last()] =~= t.take(
            j,
        ).push(e) + t.skip(j));
    }
}

/// Inserts one entry into a key-sorted list of entries, after every entry
/// whose key does not compare greater.
#[verifier::loop_isolation(false)]
fn insert_entry(out: &mut Vec<(Value, Value)>, e: (Value, Value))
    requires
        forall|k: int|
            0 <= k < old(out)@.len() ==> ((#[trigger] old(out)@[k]).0.wf()
                && old(out)@[k].1.wf()),
        e.0.wf(),
        e.1.wf(),
    ensures
        crate::value::entry_views_of(final(out)@) == spec_insert_entry(
            crate::value::entry_views_of(old(out)@),
            (e.0@, e.1@),
        ),
        forall|k: int|
            0 <= k < final(out)@.len() ==> ((#[trigger] final(out)@[k]).0.wf()
                && final(out)@[k].1.wf()),
{
    let ghost t = crate::value::entry_views_of(out@);
    let ghost ev = (e.0@, e.1@);
    let mut j: usize = out.len();
    while j > 0 && matches!(cmp_value(&out[j - 1].0, &e.0), core::cmp::Ordering::Greater)
        invariant
            j <= out@.len(),
            forall|k: int|
                j <= k < out@.len() ==> spec_cmp_value((#[trigger] t[k]).0, ev.0)
                    == core::cmp::Ordering::Greater,
        decreases j,
    {
        j = j - 1;
    }
    proof {
        lemma_spec_insert_at(t, ev, j as int);
    }
    let ghost before = out@;
    out.insert(j, e);
    proof {
        assert(crate::value::entry_views_of(out@) =~= crate::value::entry_views_of(
            before,
        ).take(j as int).push(ev) + crate::value::entry_views_of(before).skip(j as int));
    }
}

/// Sorts map entries by the canonical order of their keys, keeping the
/// order of entries with equal keys.
#[verifier::loop_isolation(false)]
fn sort_entries(entries: Vec<(Value, Value)>) -> (r: Vec<(Value, Value)>)
    requires
        forall|k: int|
            0 <= k < entries@.len() ==> ((#[trigger] entries@[k]).0.wf() && entries@[k].1.wf()),
    ensures
        crate::value::entry_views_of(r@) == spec_sort_entries(
            crate::value::entry_views_of(entries@),
        ),
        forall|k: int| 0 <= k < r@.len() ==> ((#[trigger] r@[k]).0.wf() && r@[k].1.wf()),
{
    let ghost s = crate::value::entry_views_of(entries@);
    let ghost orig = entries@;
    let mut src = entries;
    let mut out: Vec<(Value, Value)> = Vec::new();
    let ghost mut i: int = 0;
    proof {
        assert(crate::value::entry_views_of(out@) =~= Seq::<(ValueView, ValueView)>::empty());
        assert(spec_sort_entries(s.take(0)) =~= Seq::<(ValueView, ValueView)>::empty());
        assert(src@ =~= orig.skip(0));
    }
    while src.len() > 0
        invariant
            0 <= i <= orig.len(),
            orig.len() == s.len(),
            src@ == orig.skip(i),
            forall|k: int|
                0 <= k < orig.len() ==> ((#[trigger] orig[k]).0.wf() && orig[k].1.wf()),
            forall|k: int|
                0 <= k < orig.len() ==> ((#[trigger] orig[k]).0@, orig[k].1@) == s[k],
            forall|k: int|
                0 <= k < out@.len() ==> ((#[trigger] out@[k]).0.wf() && out@[k].1.wf()),
            crate::value::entry_views_of(out@) == spec_sort_entries(s.take(i)),
        decreases src@.len(),
    {
        let kv = src.remove(0);
        proof {
            assert(orig.skip(i)[0] == orig[i]);
            assert(kv == orig[i]);
            assert(src@ =~= orig.skip(i + 1));
        }
        insert_entry(&mut out, kv);
        proof {
            assert(s.take(i + 1).drop_last() =~= s.take(i));
            assert(s.take(i + 1).last() == s[i]);
            i = i + 1;
        }
    }
    proof {
        assert(i == s.len());
        assert(s.take(s.len() as int) =~= s);
    }
    out
}

/// Recursively converts a value to its canonical form, as in the core
/// deterministic encoding requirements of RFC 8949: map entries sorted by
/// the canonical order of their keys, everything else untouched.
#[verifier::loop_isolation(false)]
pub fn canonical_value(value: Value) -> (r: Value)
    requires
        value.wf(),
    ensures
        r@ == spec_canonical(value@),
        r.wf(),
    decreases value,
{
    match value {
        Value::Tag(t, inner) => {
            let ghost gv = value;
            proof {
                assert(decreases_to!(gv => *inner));
            }
            let ci = canonical_value(*inner);
            let ghost civ = ci@;
            let bx = Box::new(ci);
            proof {
                assert((*bx)@ == civ);
                assert((*bx).wf());
            }
            let r = Value::Tag(t, bx);
            proof {
                assert(r@ == ValueView::Tag(t, Box::new(civ)));
                assert(r.wf());
            }
            r
        },
        Value::Array(a) => {
            let ghost gv = value;
            let ghost ga = a;
            let ghost sa = gv@->Array_0;
            let mut src = a;
            let mut out: Vec<Value> = Vec::new();
            let ghost mut i: int = 0;
            proof {
                assert(src@ =~= ga@.skip(0));
            }
            while src.len() > 0
                invariant
                    0 <= i <= ga@.len(),
                    src@ == ga@.skip(i),
                    out@.len() == i,
                    forall|k: int| 0 <= k < i ==> (#[trigger] out@[k]).wf(),
                    forall|k: int| 0 <= k < i ==> (#[trigger] out@[k])@ == spec_canonical(sa[k]),
                decreases src@.len(),
            {
                let x = src.remove(0);
                proof {
                    assert(ga@.skip(i)[0] == ga@[i]);
                    assert(x == ga@[i]);
                    assert(src@ =~= ga@.skip(i + 1));
                    assert(decreases_to!(gv => ga));
                    assert(decreases_to!(ga => ga@));
                    assert(decreases_to!(ga@ => ga@[i]));
                    assert(sa[i] == ga@[i]@);
                    assert(ga@[i].wf());
                }
                let c = canonical_value(x);
                out.push(c);
                proof {
                    i = i + 1;
                }
            }
            let ghost ov = out@;
            let r = Value::Array(out);
            proof {
                assert(i == ga@.len());
                assert(r@ is Array);
                let s2 = r@->Array_0;
                let tgt = spec_canonical_items(sa);
                assert(spec_canonical(gv@)->Array_0 == tgt);
                assert(s2.len() == ov.len());
                assert forall|k: int| 0 <= k < s2.len() implies s2[k] == tgt[k] by {
                    assert(ov[k]@ == spec_canonical(sa[k]));
                    assert(s2[k] == view_of(ov[k]));
                }
                assert(s2 =~= tgt);
                assert(r.wf());
            }
            r
        },
        Value::Mapping(m) => {
            let ghost gv = value;
            let ghost gm = m;
            let ghost sm = gv@->Mapping_0;
            let mut src = m;
            let mut ces: Vec<(Value, Value)> = Vec::new();
            let ghost mut i: int = 0;
            proof {
                assert(src@ =~= gm@.skip(0));
            }
            while src.len() > 0
                invariant
                    0 <= i <= gm@.len(),
                    src@ == gm@.skip(i),
                    ces@.len() == i,
                    forall|k: int|
                        0 <= k < i ==> ((#[trigger] ces@[k]).0.wf() && ces@[k].1.wf()),
                    forall|k: int|
                        0 <= k < i ==> ((#[trigger] ces@[k]).0@ == spec_canonical(sm[k].0)
                            && ces@[k].1@ == spec_canonical(sm[k].1)),
                decreases src@.len(),
            {
                let kv = src.remove(0);
                proof {
                    assert(gm@.skip(i)[0] == gm@[i]);
                    assert(kv == gm@[i]);
                    assert(src@ =~= gm@.skip(i + 1));
                    assert(decreases_to!(gv => gm));
                    assert(decreases_to!(gm => gm@));
                    assert(decreases_to!(gm@ => gm@[i]));
                    assert(decreases_to!(gm@[i] => gm@[i].0));
                    assert(decreases_to!(gm@[i] => gm@[i].1));
                    assert(sm[i] == (gm@[i].0@, gm@[i].1@));
                    assert(gm@[i].0.wf() && gm@[i].1.wf());
                }
                let (kx, vx) = kv;
                let ck = canonical_value(kx);
                let cv = canonical_value(vx);
                ces.push((ck, cv));
                proof {
                    i = i + 1;
                }
            }
            proof {
                assert(i == gm@.len());
            }
            proof {
                assert(crate::value::entry_views_of(ces@) =~= spec_canonical_entries(sm));
            }
            let sorted = sort_entries(ces);
            let ghost ov = sorted@;
            let r = Value::Mapping(sorted);
            proof {
                assert(r@ matches ValueView::Mapping(s2) && s2 =~= crate::value::entry_views_of(
                    ov,
                ));
                assert(crate::value::entry_views_of(ov) == spec_canonical(gv@)->Mapping_0);
                assert(r.wf());
            }
            r
        },
        other => other,
    }
}

/// Serializes the canonical form of a value into a byte sink.
pub fn canonical_into_writer(value: &Value, writer: &mut Vec<u8>)
    requires
        value.wf(),
    ensures
        final(writer)@ == old(writer)@ + spec_encode(spec_canonical(value@)),
{
    let c = canonical_value(value.clone());
    crate::ser::into_writer(&c, writer);
}

/// Serializes the canonical form of a value into a fresh byte vector.
pub fn canonical_into_vec(value: &Value) -> (r: Vec<u8>)
    requires
        value.wf(),
    ensures
        r@ == spec_encode(spec_canonical(value@)),
{
    let c = canonical_value(value.clone());
    crate::ser::to_vec(&c)
}

} // verus!
