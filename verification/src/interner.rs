//! String interning: each distinct string gets a small, copyable symbol.
use vstd::prelude::*;
use crate::diff::fragment::model::{find_key, lemma_find_key, lemma_find_key_keys};
use crate::diff::fragment::merge::{find_entry, keys_of};

verus! {

/// The largest index a symbol may have; the indices above are kept free.
pub const MAX_SYMBOL_INDEX: u32 = 0xFFFF_FF00;

/// The index of a symbol.
#[derive(Debug, Copy, Clone, PartialEq, Eq, PartialOrd, Ord, Hash, Structural)]
pub struct SymbolIndex(pub u32);

impl SymbolIndex {
    /// The index `n`, which must not exceed [MAX_SYMBOL_INDEX].
    pub fn new(n: u32) -> (r: Self)
        requires
            n <= MAX_SYMBOL_INDEX,
        ensures
            r.0 == n,
    {
        SymbolIndex(n)
    }

    /// The index as a `u32`.
    pub fn as_u32(self) -> (r: u32)
        ensures
            r == self.0,
    {
        self.0
    }

    /// The index as a `usize`.
    pub fn as_usize(self) -> (r: usize)
        ensures
            r == self.0,
    {
        self.0 as usize
    }
}

/// An interned string.
#[derive(Debug, Copy, Clone, PartialEq, Eq, PartialOrd, Ord, Hash, Structural)]
pub struct Symbol(pub SymbolIndex);

impl Symbol {
    /// The symbol with index `n`, which must not exceed [MAX_SYMBOL_INDEX].
    pub fn new(n: u32) -> (r: Self)
        requires
            n <= MAX_SYMBOL_INDEX,
        ensures
            r.0.0 == n,
    {
        Symbol(SymbolIndex::new(n))
    }

    /// The index of the symbol.
    pub open spec fn index(self) -> nat {
        self.0.0 as nat
    }

    /// Interns `string` in `interner`.
    pub fn intern(interner: &mut Interner, string: &str) -> (r: Self)
        requires
            old(interner).well_formed(),
            old(interner)@.len() <= MAX_SYMBOL_INDEX,
        ensures
            final(interner).well_formed(),
            (final(interner)@, r.index()) == intern_spec(old(interner)@, string@),
    {
        interner.intern(string)
    }

    /// The symbol as an [InternedString].
    pub fn as_str(self) -> (r: InternedString)
        ensures
            r.0 == self,
    {
        InternedString(self)
    }

    /// The index as a `u32`.
    pub fn as_u32(self) -> (r: u32)
        ensures
            r == self.index(),
    {
        self.0.as_u32()
    }

    /// The index as a `usize`.
    pub fn as_usize(self) -> (r: usize)
        ensures
            r == self.index(),
    {
        self.0.as_usize()
    }
}

/// A string stored in an interner, compared by its symbol.
#[derive(Debug, Copy, Clone, PartialEq, Eq, Hash, Structural)]
pub struct InternedString(pub Symbol);

impl InternedString {
    /// The symbol of the string.
    pub fn as_symbol(self) -> (r: Symbol)
        ensures
            r == self.0,
    {
        self.0
    }

    /// Interns `string` in `interner`.
    pub fn intern(interner: &mut Interner, string: &str) -> (r: Self)
        requires
            old(interner).well_formed(),
            old(interner)@.len() <= MAX_SYMBOL_INDEX,
        ensures
            final(interner).well_formed(),
            (final(interner)@, r.0.index()) == intern_spec(old(interner)@, string@),
    {
        InternedString(interner.intern(string))
    }

    /// The text of the string, as stored in `interner`.
    pub fn as_str<'a>(self, interner: &'a Interner) -> (r: &'a str)
        requires
            interner.well_formed(),
            self.0.index() < interner@.len(),
        ensures
            r@ == interner@[self.0.index() as int],
    {
        interner.get(self.0)
    }
}

/// Stores each distinct string once and gives it a symbol: the position at
/// which it was first stored.
pub struct Interner {
    /// The symbol of each string.
    pub symbols: Vec<(String, Symbol)>,
    /// The strings, by symbol.
    pub strings: Vec<String>,
}

impl View for Interner {
    type V = Seq<Seq<char>>;

    open spec fn view(&self) -> Seq<Seq<char>> {
        self.strings@.map_values(|s: String| s@)
    }
}

/// The strings an interner made by [Interner::new] holds, by symbol: the
/// empty string, as symbol 0.
pub open spec fn atoms() -> Seq<Seq<char>> {
    seq![Seq::<char>::empty()]
}

/// What interning `s` makes of the strings `v`, and the index of its symbol:
/// the position of `s` if it is there, else a new last position.
pub open spec fn intern_spec(v: Seq<Seq<char>>, s: Seq<char>) -> (Seq<Seq<char>>, nat) {
    if exists|i: int| 0 <= i < v.len() && v[i] == s {
        (v, (choose|i: int| 0 <= i < v.len() && v[i] == s) as nat)
    } else {
        (v.push(s), v.len())
    }
}

impl Interner {
    /// The symbols agree with the strings, and no string is stored twice.
    pub open spec fn well_formed(&self) -> bool {
        &&& self.symbols@.len() == self.strings@.len()
        &&& forall|i: int| 0 <= i < self.symbols@.len() ==> (#[trigger] self.symbols@[i]).0@ == self.strings@[i]@
            && self.symbols@[i].1.index() == i
        &&& forall|i: int, j: int| 0 <= i < j < self.strings@.len() ==> self.strings@[i]@ != self.strings@[j]@
        &&& self.strings@.len() <= MAX_SYMBOL_INDEX + 1
    }

    /// An interner that holds the atoms, each under its symbol: the empty
    /// string as symbol 0.
    pub fn new() -> (r: Self)
        ensures
            r.well_formed(),
            r@ == atoms(),
    {
        let mut r = Interner::default();
        let _empty = r.intern("");
        proof {
            reveal_strlit("");
            assert(""@ =~= Seq::<char>::empty());
            assert(intern_spec(Seq::<Seq<char>>::empty(), Seq::<char>::empty()).0 =~= atoms());
        }
        r
    }

    /// The symbol of `string`, storing it if it is new.
    pub fn intern(&mut self, string: &str) -> (r: Symbol)
        requires
            old(self).well_formed(),
            old(self)@.len() <= MAX_SYMBOL_INDEX,
        ensures
            final(self).well_formed(),
            (final(self)@, r.index()) == intern_spec(old(self)@, string@),
    {
        let key = String::from_str(string);
        let ghost v = self@;
        proof {
            assert forall|i: int| 0 <= i < self.symbols@.len() implies #[trigger] keys_of(self.symbols@)[i].0 == v[i] by {}
            lemma_find_key(keys_of(self.symbols@), key@);
        }
        match find_entry(&self.symbols, &key) {
            Some(i) => {
                let sym = self.symbols[i].1;
                proof {
                    assert(v[i as int] == string@);
                    let w = choose|k: int| 0 <= k < v.len() && v[k] == string@;
                    if w != i {
                        if w < i {
                            assert(self.strings@[w]@ != self.strings@[i as int]@);
                        } else {
                            assert(self.strings@[i as int]@ != self.strings@[w]@);
                        }
                    }
                }
                sym
            },
            None => {
                proof {
                    assert forall|k: int| 0 <= k < v.len() implies v[k] != string@ by {
                        assert(keys_of(self.symbols@)[k].0 != key@);
                    }
                }
                let n = self.strings.len() as u32;
                let sym = Symbol::new(n);
                let ghost old_strings = self.strings@;
                self.strings.push(String::from_str(string));
                self.symbols.push((key, sym));
                assert(self@ =~= v.push(string@));
                assert forall|a: int, b: int| 0 <= a < b < self.strings@.len() implies self.strings@[a]@ != self.strings@[b]@ by {
                    if b == old_strings.len() {
                        assert(v[a] != string@);
                    } else {
                        assert(old_strings[a]@ != old_strings[b]@);
                    }
                }
                sym
            },
        }
    }

    /// The text of `symbol`.
    pub fn get(&self, symbol: Symbol) -> (r: &str)
        requires
            self.well_formed(),
            symbol.index() < self@.len(),
        ensures
            r@ == self@[symbol.index() as int],
    {
        self.strings[symbol.as_usize()].as_str()
    }
}

impl Default for Interner {
    fn default() -> (r: Self)
        ensures
            r.well_formed(),
            r@ == Seq::<Seq<char>>::empty(),
    {
        let r = Interner { symbols: Vec::new(), strings: Vec::new() };
        assert(r@ =~= Seq::<Seq<char>>::empty());
        r
    }
}

/// Interning a string a second time gives the same symbol and stores
/// nothing more.
pub proof fn law_intern_idempotent(v: Seq<Seq<char>>, s: Seq<char>)
    ensures
        intern_spec(intern_spec(v, s).0, s) == (intern_spec(v, s).0, intern_spec(v, s).1),
{
    let (w, k) = intern_spec(v, s);
    if !(exists|i: int| 0 <= i < v.len() && v[i] == s) {
        assert(w[v.len() as int] == s);
        let j = choose|i: int| 0 <= i < w.len() && w[i] == s;
        if j < v.len() {
            assert(w[j] == v[j]);
        }
    }
}

/// The text stored under the symbol of a string is that string.
pub proof fn law_intern_then_get(v: Seq<Seq<char>>, s: Seq<char>)
    ensures
        intern_spec(v, s).1 < intern_spec(v, s).0.len(),
        intern_spec(v, s).0[intern_spec(v, s).1 as int] == s,
{
}

/// Distinct strings get distinct symbols.
pub proof fn law_intern_distinct(v: Seq<Seq<char>>, s: Seq<char>, t: Seq<char>)
    requires
        s != t,
    ensures
        ({
            let (v1, a) = intern_spec(v, s);
            let (v2, b) = intern_spec(v1, t);
            a != b
        }),
{
    law_intern_then_get(v, s);
    let (v1, a) = intern_spec(v, s);
    law_intern_then_get(v1, t);
    let (v2, b) = intern_spec(v1, t);
    if a == b {
        assert(v2[b as int] == t);
        if exists|i: int| 0 <= i < v1.len() && v1[i] == t {
            assert(v2 == v1);
        } else {
            assert(v2[a as int] == v1[a as int]);
        }
    }
}

} // verus!
