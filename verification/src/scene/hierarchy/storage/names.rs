use string_interner::{DefaultBackend, DefaultSymbol, StringInterner, Symbol};
use vstd::prelude::*;

verus! {

#[verifier::external_type_specification]
#[verifier::external_body]
pub struct ExDefaultSymbol(DefaultSymbol);

/// The index a symbol stands for (what `Symbol::to_usize` returns).
pub uninterp spec fn symbol_index(s: DefaultSymbol) -> usize;

/// A `string_interner` interner with its default backend, holding the names
/// of the hierarchy's objects; the strings it holds are `interned(..)`, and
/// only the calls below reach them.
#[verifier::external_body]
pub struct Names {
    inner: StringInterner<DefaultBackend>,
}

/// The strings an interner holds, each at the index of its symbol.
pub uninterp spec fn interned(n: Names) -> Seq<Seq<char>>;

/// Calls `Symbol::to_usize`.
#[verifier::external_body]
pub(crate) fn symbol_to_usize(s: DefaultSymbol) -> (r: usize)
    ensures
        r == symbol_index(s),
{
    s.to_usize()
}

impl Names {
    /// Calls `StringInterner::new`: an interner that holds nothing.
    #[verifier::external_body]
    pub(crate) fn new() -> (r: Names)
        ensures
            interned(r) == Seq::<Seq<char>>::empty(),
    {
        Names { inner: StringInterner::new() }
    }

    /// Calls `StringInterner::get_or_intern`: the symbol of the string, which is
    /// appended when it was not held yet. A symbol is the string's index, so
    /// the interner panics when that index would not fit a `u32` symbol.
    #[verifier::external_body]
    pub(crate) fn get_or_intern(&mut self, s: &str) -> (r: DefaultSymbol)
        requires
            interned(*old(self)).len() < u32::MAX,
        ensures
            interned(*final(self)) == if interned(*old(self)).contains(s@) {
                interned(*old(self))
            } else {
                interned(*old(self)).push(s@)
            },
            symbol_index(r) < interned(*final(self)).len(),
            interned(*final(self))[symbol_index(r) as int] == s@,
    {
        self.inner.get_or_intern(s)
    }

    /// Calls `StringInterner::get_or_intern_static`, which behaves as
    /// `get_or_intern` (it only avoids copying the string).
    #[verifier::external_body]
    pub(crate) fn get_or_intern_static(&mut self, s: &'static str) -> (r: DefaultSymbol)
        requires
            interned(*old(self)).len() < u32::MAX,
        ensures
            interned(*final(self)) == if interned(*old(self)).contains(s@) {
                interned(*old(self))
            } else {
                interned(*old(self)).push(s@)
            },
            symbol_index(r) < interned(*final(self)).len(),
            interned(*final(self))[symbol_index(r) as int] == s@,
    {
        self.inner.get_or_intern_static(s)
    }

    /// Calls `StringInterner::resolve`: the string of a symbol, if the interner
    /// holds one at its index.
    #[verifier::external_body]
    pub(crate) fn resolve(&self, s: DefaultSymbol) -> (r: Option<&str>)
        ensures
            r is Some <==> symbol_index(s) < interned(*self).len(),
            r is Some ==> r.unwrap()@ == interned(*self)[symbol_index(s) as int],
    {
        self.inner.resolve(s)
    }
}

} // verus!
