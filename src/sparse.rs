use bitvec::vec::BitVec;
use vstd::prelude::*;

verus! {

/// A growable set of bits, kept in a bit-vector.
#[verifier::external_body]
pub struct Bits {
    inner: BitVec,
}

/// The bits a bit-vector holds, in index order.
pub uninterp spec fn bits_of(v: &Bits) -> Seq<bool>;

/// Largest length a bit-vector can encode.
pub const BIT_LEN_LIMIT: usize = usize::MAX >> 3usize;

/// Relies on `BitVec::new`: the new bit-vector is empty.
#[verifier::external_body]
pub(crate) fn new_bits() -> (r: Bits)
    ensures
        bits_of(&r) == Seq::<bool>::empty(),
{
    Bits { inner: BitVec::new() }
}

/// Relies on `BitVec::len`: the number of bits held.
#[verifier::external_body]
fn bit_len(v: &Bits) -> (r: usize)
    ensures
        r == bits_of(v).len(),
{
    v.inner.len()
}

/// Relies on `BitVec::push`: appends one bit; it panics past the encodable length.
#[verifier::external_body]
fn push_bit(v: &mut Bits, b: bool)
    requires
        bits_of(old(v)).len() < BIT_LEN_LIMIT,
    ensures
        bits_of(final(v)) == bits_of(old(v)).push(b),
{
    v.inner.push(b)
}

/// Relies on `BitSlice::set`: overwrites the bit at `index`, which must be in range.
#[verifier::external_body]
fn set_bit(v: &mut Bits, index: usize, b: bool)
    requires
        index < bits_of(old(v)).len(),
    ensures
        bits_of(final(v)) == bits_of(old(v)).update(index as int, b),
{
    v.inner.set(index, b)
}

/// The number of set bits in `s`.
pub open spec fn ones(s: Seq<bool>) -> nat
    decreases s.len(),
{
    if s.len() == 0 {
        0
    } else {
        ones(s.drop_last()) + if s.last() { 1nat } else { 0nat }
    }
}

/// Relies on `BitSlice::count_ones`: the number of set bits.
#[verifier::external_body]
pub(crate) fn count_ones(v: &Bits) -> (r: usize)
    ensures
        r == ones(bits_of(v)),
{
    v.inner.count_ones()
}

impl Bits {
    /// An empty set of bits.
    pub fn new() -> (r: Bits)
        ensures
            bits_of(&r) == Seq::<bool>::empty(),
    {
        new_bits()
    }

    /// Number of bits, set or clear.
    pub fn len(&self) -> (r: usize)
        ensures
            r == bits_of(self).len(),
    {
        bit_len(self)
    }

    /// Number of set bits.
    pub fn ones(&self) -> (r: usize)
        ensures
            r == ones(bits_of(self)),
    {
        count_ones(self)
    }
}

/// Returns a mutable reference to `v[index]`, first growing `v` with default
/// values until `index` is in range. The vector never shrinks.
pub fn get_mut_at_with_extend<T: Default>(v: &mut Vec<T>, index: usize) -> (r: &mut T)
    ensures
        old(v).len() > index ==> final(v)@ == old(v)@.update(index as int, *final(r)),
        old(v).len() > index ==> *r == old(v)@[index as int],
        old(v).len() <= index ==> final(v).len() == index + 1,
        old(v).len() <= index ==> forall|i: int| 0 <= i < old(v).len() ==> final(v)@[i] == old(v)@[i],
        old(v).len() <= index ==> forall|i: int|
            old(v).len() <= i < index ==> call_ensures(T::default, (), #[trigger] final(v)@[i]),
        old(v).len() <= index ==> call_ensures(T::default, (), *r),
        old(v).len() <= index ==> final(v)@[index as int] == *final(r),
{
    let ghost start = v@;
    while index >= v.len()
        invariant
            start.len() <= index ==> v@.len() <= index + 1,
            start.len() <= index ==> v@.len() >= start.len(),
            start.len() > index ==> v@ == start,
            forall|i: int| 0 <= i < start.len() && i < v@.len() ==> v@[i] == start[i],
            forall|i: int| start.len() <= i < v@.len() ==> call_ensures(T::default, (), #[trigger] v@[i]),
        decreases index + 1 - v.len(),
    {
        v.push(T::default());
    }
    &mut v[index]
}

/// Bit `i` of `s`, where bits past the end read as cleared.
pub open spec fn bit_or_clear(s: Seq<bool>, i: int) -> bool {
    0 <= i < s.len() && s[i]
}

/// `s` with bit `index` set, grown with cleared bits to cover `index`.
pub open spec fn with_bit_set(s: Seq<bool>, index: int) -> Seq<bool> {
    Seq::new(
        if index < s.len() {
            s.len()
        } else {
            (index + 1) as nat
        },
        |i: int| i == index || bit_or_clear(s, i),
    )
}

/// Sets bit `index` of `v`, first growing `v` with cleared bits until
/// `index` is in range.
pub fn set_at_with_extend(v: &mut Bits, index: usize)
    requires
        index < BIT_LEN_LIMIT,
    ensures
        bits_of(final(v)) == with_bit_set(bits_of(old(v)), index as int),
{
    let ghost start = bits_of(v);
    while index >= bit_len(v)
        invariant
            index < BIT_LEN_LIMIT,
            start.len() <= index ==> bits_of(v).len() <= index + 1,
            start.len() > index ==> bits_of(v) == start,
            bits_of(v).len() >= start.len(),
            forall|i: int|
                0 <= i < bits_of(v).len() ==> bits_of(v)[i] == bit_or_clear(start, i),
        decreases index + 1 - bits_of(v).len(),
    {
        let ghost prev = bits_of(v);
        push_bit(v, false);
        assert(bits_of(v) == prev.push(false));
        assert forall|i: int| 0 <= i < bits_of(v).len() implies bits_of(v)[i] == bit_or_clear(start, i) by {
            if i < prev.len() {
                assert(bits_of(v)[i] == prev[i]);
            }
        }
    }
    let ghost grown = bits_of(v);
    set_bit(v, index, true);
    assert forall|i: int| 0 <= i < bits_of(v).len() && i != index implies bits_of(v)[i] == bit_or_clear(start, i) by {
        assert(bits_of(v)[i] == grown[i]);
    }
    assert(bits_of(v) =~= with_bit_set(start, index as int));
}

} // verus!
