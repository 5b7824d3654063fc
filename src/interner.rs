use string_interner::backend::StringBackend;
use string_interner::symbol::SymbolU16;
use string_interner::{StringInterner, Symbol};
use vstd::prelude::*;

verus! {

/// Maps strings to dense 16-bit symbols and back. Symbols are handed out
/// in order of first sight, starting from 0.
#[verifier::external_body]
pub struct Interner {
    inner: StringInterner<StringBackend<SymbolU16>>,
}

/// The strings an interner holds, indexed by symbol.
pub uninterp spec fn interned(i: &Interner) -> Seq<Seq<char>>;

/// Number of distinct strings a 16-bit symbol space can name.
pub const SYMBOL_LIMIT: usize = 65535;

/// Relies on `StringInterner::new`: an interner that holds no string.
#[verifier::external_body]
fn new_interner() -> (r: Interner)
    ensures
        interned(&r) == Seq::<Seq<char>>::empty(),
{
    Interner { inner: StringInterner::new() }
}

/// Relies on `StringInterner::len`: the number of strings held.
#[verifier::external_body]
fn interned_len(i: &Interner) -> (r: usize)
    ensures
        r == interned(i).len(),
{
    i.inner.len()
}

/// Relies on `StringInterner::get`: the symbol of `s` if it is held.
#[verifier::external_body]
fn lookup(i: &Interner, s: &str) -> (r: Option<u16>)
    ensures
        r matches Some(k) ==> k < interned(i).len() && interned(i)[k as int] == s@,
        r is None ==> !interned(i).contains(s@),
{
    i.inner.get(s).map(|k| k.to_usize() as u16)
}

/// Relies on `StringInterner::get_or_intern`: returns the symbol of `s`,
/// appending `s` under the next symbol if it is not held yet. It panics
/// when the symbol space is used up.
#[verifier::external_body]
fn get_or_intern(i: &mut Interner, s: &str) -> (r: u16)
    requires
        interned(old(i)).len() < SYMBOL_LIMIT,
    ensures
        interned(old(i)).contains(s@) ==> interned(final(i)) == interned(old(i)),
        interned(old(i)).contains(s@) ==> r < interned(old(i)).len(),
        interned(old(i)).contains(s@) ==> interned(final(i))[r as int] == s@,
        !interned(old(i)).contains(s@) ==> interned(final(i)) == interned(old(i)).push(s@),
        !interned(old(i)).contains(s@) ==> r == interned(old(i)).len(),
{
    i.inner.get_or_intern(s).to_usize() as u16
}

/// Relies on `StringInterner::resolve`: the string held under a symbol.
#[verifier::external_body]
fn resolve_symbol(i: &Interner, k: u16) -> (r: Option<String>)
    requires
        k < interned(i).len(),
    ensures
        r is Some,
        r.unwrap()@ == interned(i)[k as int],
{
    let sym = SymbolU16::try_from_usize(k as usize)?;
    i.inner.resolve(sym).map(String::from)
}

/// No string is held twice.
pub open spec fn distinct(names: Seq<Seq<char>>) -> bool {
    forall|a: int, b: int| 0 <= a < b < names.len() ==> names[a] != names[b]
}

/// `after` is `before` once `s` has been interned under symbol `k`: `k` is
/// the symbol `s` already had, or the next one, given to `s`.
pub open spec fn interned_as(before: Seq<Seq<char>>, after: Seq<Seq<char>>, s: Seq<char>, k: int) -> bool {
    if before.contains(s) {
        after == before && 0 <= k < before.len() && before[k] == s
    } else {
        after == before.push(s) && k == before.len()
    }
}

/// The string under symbol `k`, if there is one.
pub open spec fn resolved(names: Seq<Seq<char>>, k: int) -> Option<Seq<char>> {
    if 0 <= k < names.len() {
        Some(names[k])
    } else {
        None
    }
}

impl View for Interner {
    type V = Seq<Seq<char>>;

    open spec fn view(&self) -> Seq<Seq<char>> {
        interned(self)
    }
}

impl Interner {
    pub open spec fn wf(&self) -> bool {
        distinct(self@) && self@.len() <= SYMBOL_LIMIT
    }

    pub fn new() -> (r: Interner)
        ensures
            r.wf(),
            r@ == Seq::<Seq<char>>::empty(),
    {
        new_interner()
    }

    /// Number of distinct strings held.
    pub fn len(&self) -> (r: usize)
        ensures
            r == self@.len(),
    {
        interned_len(self)
    }

    /// The symbol of `s`, interning it on first sight. `None` when `s` is
    /// new and every symbol is taken; the interner is then unchanged.
    pub fn intern(&mut self, s: &str) -> (r: Option<u16>)
        requires
            old(self).wf(),
        ensures
            final(self).wf(),
            r is None <==> (!old(self)@.contains(s@) && old(self)@.len() == SYMBOL_LIMIT),
            r is None ==> final(self)@ == old(self)@,
            r matches Some(k) ==> interned_as(old(self)@, final(self)@, s@, k as int),
    {
        if interned_len(self) < SYMBOL_LIMIT {
            let k = get_or_intern(self, s);
            proof {
                let before = interned(old(self));
                if !before.contains(s@) {
                    assert forall|a: int, b: int| 0 <= a < b < self@.len() implies self@[a]
                        != self@[b] by {
                        if b == before.len() {
                            assert(before[a] == self@[a]);
                        }
                    }
                }
            }
            Some(k)
        } else {
            lookup(self, s)
        }
    }

    /// Every string held, indexed by symbol.
    pub fn strings(&self) -> (r: Vec<String>)
        requires
            self.wf(),
        ensures
            r@.len() == self@.len(),
            forall|k: int| 0 <= k < r@.len() ==> (#[trigger] r@[k])@ == self@[k],
    {
        let len = interned_len(self);
        let mut out: Vec<String> = Vec::new();
        let mut k: usize = 0;
        while k < len
            invariant
                len == self@.len(),
                len <= SYMBOL_LIMIT,
                k <= len,
                out@.len() == k,
                forall|m: int| 0 <= m < k ==> (#[trigger] out@[m])@ == self@[m],
            decreases len - k,
        {
            out.push(resolve_symbol(self, k as u16).unwrap());
            k = k + 1;
        }
        out
    }

    /// The string under symbol `k`, or `None` if no string has that symbol.
    pub fn resolve(&self, k: u16) -> (r: Option<String>)
        ensures
            r matches Some(t) ==> resolved(self@, k as int) == Some(t@),
            r is None ==> resolved(self@, k as int) is None,
    {
        if (k as usize) < interned_len(self) {
            resolve_symbol(self, k)
        } else {
            None
        }
    }
}

/// Interning a string and resolving the symbol it got gives the string
/// back, and interning the same string again gives the same symbol and
/// leaves the interner as it was.
pub proof fn lemma_intern_round_trip(
    before: Seq<Seq<char>>,
    middle: Seq<Seq<char>>,
    after: Seq<Seq<char>>,
    s: Seq<char>,
    k1: int,
    k2: int,
)
    requires
        distinct(before),
        interned_as(before, middle, s, k1),
        interned_as(middle, after, s, k2),
    ensures
        resolved(middle, k1) == Some(s),
        k1 == k2,
        after == middle,
{
    assert(middle[k1] == s);
    assert(middle.contains(s));
    if k1 != k2 {
        if !before.contains(s) {
            assert(middle[k2] == before[k2]);
            assert(before.contains(s));
        } else {
            assert(middle == before);
        }
    }
}

} // verus!
