//! The minor field of a CBOR item: the bottom five bits of its first byte,
//! together with the affix bytes (0, 1, 2, 4 or 8 of them) that follow it.

use vstd::prelude::*;

verus! {

/// The shape of the argument of a CBOR item.
///
/// The wire holds a five-bit selector: values up to 23 are the argument
/// itself (`Immediate`), values 24 to 27 announce 1, 2, 4 or 8 big-endian
/// affix bytes (`Subsequent1` to `Subsequent8`), and 31 marks an
/// indefinite-length item (`Indeterminate`). Selectors 28 to 30 are reserved
/// and rejected on decode.
#[derive(Copy, Clone, Debug, PartialEq, Eq)]
pub enum Minor {
    /// The argument is the five-bit field itself (0 to 23).
    Immediate(u8),
    /// One affix byte holds the argument.
    Subsequent1([u8; 1]),
    /// Two affix bytes hold the argument, big-endian.
    Subsequent2([u8; 2]),
    /// Four affix bytes hold the argument, big-endian.
    Subsequent4([u8; 4]),
    /// Eight affix bytes hold the argument, big-endian.
    Subsequent8([u8; 8]),
    /// No argument: the item has indefinite length.
    Indeterminate,
}

impl Minor {
    /// A structurally valid minor: an immediate value fits in five bits and
    /// stays below the selector range.
    pub open spec fn wf(self) -> bool {
        match self {
            Minor::Immediate(x) => x < 24,
            _ => true,
        }
    }

    /// The five-bit selector encoding this minor.
    pub open spec fn spec_bits(self) -> u8 {
        match self {
            Minor::Immediate(x) => x,
            Minor::Subsequent1(_) => 24,
            Minor::Subsequent2(_) => 25,
            Minor::Subsequent4(_) => 26,
            Minor::Subsequent8(_) => 27,
            Minor::Indeterminate => 31,
        }
    }

    /// The affix bytes that follow the prefix byte.
    pub open spec fn spec_affix(self) -> Seq<u8> {
        match self {
            Minor::Immediate(_) => Seq::empty(),
            Minor::Subsequent1(a) => a@,
            Minor::Subsequent2(a) => a@,
            Minor::Subsequent4(a) => a@,
            Minor::Subsequent8(a) => a@,
            Minor::Indeterminate => Seq::empty(),
        }
    }

    /// The argument carried by this minor: the immediate value or the
    /// big-endian value of the affix, and nothing for `Indeterminate`.
    pub open spec fn spec_value(self) -> Option<u64> {
        match self {
            Minor::Immediate(x) => Some(x as u64),
            Minor::Subsequent1(a) => Some(a@[0] as u64),
            Minor::Subsequent2(a) => Some(be_val(a@) as u64),
            Minor::Subsequent4(a) => Some(be_val(a@) as u64),
            Minor::Subsequent8(a) => Some(be_val(a@) as u64),
            Minor::Indeterminate => None,
        }
    }

    /// The shortest minor whose argument is `v`: the width selection rule of
    /// RFC 8949 for integers and lengths.
    pub open spec fn spec_for_u64(v: u64) -> Minor {
        if v < 24 {
            Minor::Immediate(v as u8)
        } else if v < 0x100 {
            Minor::Subsequent1([v as u8])
        } else if v < 0x10000 {
            Minor::Subsequent2([((v / 0x100) % 0x100) as u8, (v % 0x100) as u8])
        } else if v < 0x100000000 {
            Minor::Subsequent4(
                [
                    ((v / 0x1000000) % 0x100) as u8,
                    ((v / 0x10000) % 0x100) as u8,
                    ((v / 0x100) % 0x100) as u8,
                    (v % 0x100) as u8,
                ],
            )
        } else {
            Minor::Subsequent8(
                [
                    ((v / 0x100000000000000) % 0x100) as u8,
                    ((v / 0x1000000000000) % 0x100) as u8,
                    ((v / 0x10000000000) % 0x100) as u8,
                    ((v / 0x100000000) % 0x100) as u8,
                    ((v / 0x1000000) % 0x100) as u8,
                    ((v / 0x10000) % 0x100) as u8,
                    ((v / 0x100) % 0x100) as u8,
                    (v % 0x100) as u8,
                ],
            )
        }
    }

    /// Builds the shortest minor whose argument is `v`.
    pub fn for_u64(v: u64) -> (r: Minor)
        ensures
            r == Minor::spec_for_u64(v),
    {
        if v < 24 {
            Minor::Immediate(v as u8)
        } else if v < 0x100 {
            Minor::Subsequent1([v as u8])
        } else if v < 0x10000 {
            Minor::Subsequent2([((v / 0x100) % 0x100) as u8, (v % 0x100) as u8])
        } else if v < 0x100000000 {
            Minor::Subsequent4(
                [
                    ((v / 0x1000000) % 0x100) as u8,
                    ((v / 0x10000) % 0x100) as u8,
                    ((v / 0x100) % 0x100) as u8,
                    (v % 0x100) as u8,
                ],
            )
        } else {
            Minor::Subsequent8(
                [
                    ((v / 0x100000000000000) % 0x100) as u8,
                    ((v / 0x1000000000000) % 0x100) as u8,
                    ((v / 0x10000000000) % 0x100) as u8,
                    ((v / 0x100000000) % 0x100) as u8,
                    ((v / 0x1000000) % 0x100) as u8,
                    ((v / 0x10000) % 0x100) as u8,
                    ((v / 0x100) % 0x100) as u8,
                    (v % 0x100) as u8,
                ],
            )
        }
    }

    /// Builds the minor for a length: indefinite when `l` is `None`,
    /// shortest-form definite otherwise.
    pub fn for_length(l: Option<usize>) -> (r: Minor)
        ensures
            r == Minor::spec_for_length(l),
    {
        match l {
            None => Minor::Indeterminate,
            Some(x) => Minor::for_u64(x as u64),
        }
    }

    /// The minor for a length: indefinite when `l` is `None`.
    pub open spec fn spec_for_length(l: Option<usize>) -> Minor {
        match l {
            None => Minor::Indeterminate,
            Some(x) => Minor::spec_for_u64(x as u64),
        }
    }

    /// Returns the five-bit selector encoding this minor.
    pub fn bits(&self) -> (r: u8)
        ensures
            r == self.spec_bits(),
    {
        match self {
            Minor::Immediate(x) => *x,
            Minor::Subsequent1(_) => 24,
            Minor::Subsequent2(_) => 25,
            Minor::Subsequent4(_) => 26,
            Minor::Subsequent8(_) => 27,
            Minor::Indeterminate => 31,
        }
    }

    /// Returns the argument carried by this minor, if any.
    pub fn value(&self) -> (r: Option<u64>)
        ensures
            r == self.spec_value(),
    {
        match self {
            Minor::Immediate(x) => Some(*x as u64),
            Minor::Subsequent1(a) => Some(a[0] as u64),
            Minor::Subsequent2(a) => {
                let r = (a[0] as u64) * 0x100 + (a[1] as u64);
                proof {
                    lemma_be_val_2(a@);
                }
                Some(r)
            },
            Minor::Subsequent4(a) => {
                let r = (a[0] as u64) * 0x1000000 + (a[1] as u64) * 0x10000 + (a[2] as u64) * 0x100
                    + (a[3] as u64);
                proof {
                    lemma_be_val_4(a@);
                }
                Some(r)
            },
            Minor::Subsequent8(a) => {
                let hi = (a[0] as u64) * 0x1000000 + (a[1] as u64) * 0x10000 + (a[2] as u64)
                    * 0x100 + (a[3] as u64);
                let lo = (a[4] as u64) * 0x1000000 + (a[5] as u64) * 0x10000 + (a[6] as u64)
                    * 0x100 + (a[7] as u64);
                let r = hi * 0x100000000 + lo;
                proof {
                    lemma_be_val_8(a@);
                }
                Some(r)
            },
            Minor::Indeterminate => None,
        }
    }

    /// Returns how many affix bytes follow the prefix byte.
    pub fn affix_len(&self) -> (r: usize)
        ensures
            r == self.spec_affix().len(),
    {
        match self {
            Minor::Immediate(_) => 0,
            Minor::Subsequent1(_) => 1,
            Minor::Subsequent2(_) => 2,
            Minor::Subsequent4(_) => 4,
            Minor::Subsequent8(_) => 8,
            Minor::Indeterminate => 0,
        }
    }

    /// Appends the affix bytes to `out`.
    pub fn push_affix(&self, out: &mut Vec<u8>)
        ensures
            final(out)@ == old(out)@ + self.spec_affix(),
    {
        match self {
            Minor::Immediate(_) => {
                assert(out@ =~= out@ + self.spec_affix());
            },
            Minor::Subsequent1(a) => {
                out.push(a[0]);
                assert(out@ =~= old(out)@ + self.spec_affix());
            },
            Minor::Subsequent2(a) => {
                out.push(a[0]);
                out.push(a[1]);
                assert(out@ =~= old(out)@ + self.spec_affix());
            },
            Minor::Subsequent4(a) => {
                let mut i: usize = 0;
                while i < 4
                    invariant
                        i <= 4,
                        out@ == old(out)@ + self.spec_affix().take(i as int),
                        self matches Minor::Subsequent4(b) && b == a,
                    decreases 4 - i,
                {
                    out.push(a[i]);
                    assert(out@ =~= old(out)@ + self.spec_affix().take(i + 1 as int));
                    i = i + 1;
                }
                assert(out@ =~= old(out)@ + self.spec_affix());
            },
            Minor::Subsequent8(a) => {
                let mut i: usize = 0;
                while i < 8
                    invariant
                        i <= 8,
                        out@ == old(out)@ + self.spec_affix().take(i as int),
                        self matches Minor::Subsequent8(b) && b == a,
                    decreases 8 - i,
                {
                    out.push(a[i]);
                    assert(out@ =~= old(out)@ + self.spec_affix().take(i + 1 as int));
                    i = i + 1;
                }
                assert(out@ =~= old(out)@ + self.spec_affix());
            },
            Minor::Indeterminate => {
                assert(out@ =~= out@ + self.spec_affix());
            },
        }
    }
}

/// The value of a byte string read as a big-endian number.
pub open spec fn be_val(s: Seq<u8>) -> nat
    decreases s.len(),
{
    if s.len() == 0 {
        0
    } else {
        be_val(s.drop_last()) * 0x100 + s.last() as nat
    }
}

/// The big-endian value of two bytes, written out.
pub proof fn lemma_be_val_2(s: Seq<u8>)
    requires
        s.len() == 2,
    ensures
        be_val(s) == s[0] * 0x100 + s[1],
        be_val(s) < 0x10000,
{
    let t = s.drop_last();
    assert(t.drop_last() =~= Seq::<u8>::empty());
    assert(be_val(Seq::<u8>::empty()) == 0);
    assert(be_val(t) == be_val(t.drop_last()) * 0x100 + t.last() as nat);
    assert(t.last() == s[0]);
    assert(be_val(s) == be_val(t) * 0x100 + s.last() as nat);
}

/// The big-endian value of four bytes, written out.
pub proof fn lemma_be_val_4(s: Seq<u8>)
    requires
        s.len() == 4,
    ensures
        be_val(s) == s[0] * 0x1000000 + s[1] * 0x10000 + s[2] * 0x100 + s[3],
        be_val(s) < 0x100000000,
{
    lemma_be_val_2(s.drop_last().drop_last());
    assert(s.drop_last().drop_last()[0] == s[0]);
    assert(s.drop_last().drop_last()[1] == s[1]);
    assert(be_val(s.drop_last()) == be_val(s.drop_last().drop_last()) * 0x100 + s[2]);
}

/// The big-endian value of eight bytes, written out.
pub proof fn lemma_be_val_8(s: Seq<u8>)
    requires
        s.len() == 8,
    ensures
        be_val(s) == ((s[0] * 0x1000000 + s[1] * 0x10000 + s[2] * 0x100 + s[3]) * 0x100000000) + (
        s[4] * 0x1000000 + s[5] * 0x10000 + s[6] * 0x100 + s[7]),
        be_val(s) < 0x10000000000000000,
{
    lemma_be_val_4(s.drop_last().drop_last().drop_last().drop_last());
    let p = s.drop_last().drop_last().drop_last().drop_last();
    assert(p[0] == s[0] && p[1] == s[1] && p[2] == s[2] && p[3] == s[3]);
    assert(be_val(s.drop_last().drop_last().drop_last()) == be_val(p) * 0x100 + s[4]);
    assert(be_val(s.drop_last().drop_last()) == be_val(s.drop_last().drop_last().drop_last())
        * 0x100 + s[5]);
    assert(be_val(s.drop_last()) == be_val(s.drop_last().drop_last()) * 0x100 + s[6]);
}


/// The minimal big-endian magnitude bytes of a number: no leading zeros,
/// empty for zero.
pub open spec fn spec_minimal_be(n: nat) -> Seq<u8>
    decreases n,
{
    if n == 0 {
        Seq::empty()
    } else {
        spec_minimal_be(n / 256).push((n % 256) as u8)
    }
}

/// The minimal big-endian bytes carry the number back, and never begin with
/// a zero byte.
pub proof fn lemma_minimal_be(n: nat)
    ensures
        be_val(spec_minimal_be(n)) == n,
        spec_minimal_be(n).len() > 0 ==> spec_minimal_be(n)[0] != 0,
        n == 0 <==> spec_minimal_be(n).len() == 0,
    decreases n,
{
    if n == 0 {
        assert(be_val(Seq::<u8>::empty()) == 0);
    } else {
        lemma_minimal_be(n / 256);
        let s = spec_minimal_be(n / 256);
        let b = (n % 256) as u8;
        assert(s.push(b).drop_last() =~= s);
        assert(s.push(b).last() == b);
        assert(be_val(s.push(b)) == be_val(s) * 256 + b);
        if s.len() == 0 {
            assert(n / 256 == 0);
            assert(s.push(b)[0] == b);
        } else {
            assert(s.push(b)[0] == s[0]);
        }
    }
}

/// The shortest minor for `v` carries the value `v` back: the width
/// selection of `spec_for_u64` is lossless.
pub proof fn lemma_minor_for_u64_value(v: u64)
    ensures
        Minor::spec_for_u64(v).spec_value() == Some(v),
        Minor::spec_for_u64(v).wf(),
{
    let m = Minor::spec_for_u64(v);
    if v < 24 {
    } else if v < 0x100 {
    } else if v < 0x10000 {
        lemma_be_val_2(m.spec_affix());
    } else if v < 0x100000000 {
        lemma_be_val_4(m.spec_affix());
    } else {
        lemma_be_val_8(m.spec_affix());
        assert(((v / 0x100000000000000) % 0x100) * 0x1000000 + ((v / 0x1000000000000) % 0x100)
            * 0x10000 + ((v / 0x10000000000) % 0x100) * 0x100 + ((v / 0x100000000) % 0x100) == v
            / 0x100000000) by (bit_vector);
        assert(((v / 0x1000000) % 0x100) * 0x1000000 + ((v / 0x10000) % 0x100) * 0x10000 + ((v
            / 0x100) % 0x100) * 0x100 + (v % 0x100) == v % 0x100000000) by (bit_vector);
    }
}

} // verus!
