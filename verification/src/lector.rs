//! A reader over the characters of an expression, consumed from the front.
use vstd::prelude::*;
use crate::texto::a_vector;

verus! {

/// The characters of an expression that are still to be read.
pub struct Lector {
    caracteres: Vec<char>,
    posicion: usize,
}

impl Lector {
    #[verifier::type_invariant]
    closed spec fn bien_formado(self) -> bool {
        self.posicion <= self.caracteres.len()
    }

    /// The characters still to be read.
    pub closed spec fn restantes(self) -> Seq<char> {
        self.caracteres@.skip(self.posicion as int)
    }

    /// A reader over the characters of `s`.
    pub fn new(s: &str) -> (r: Lector)
        ensures
            r.restantes() == s@,
    {
        let v = a_vector(s);
        let r = Lector { caracteres: v, posicion: 0 };
        assert(r.restantes() =~= s@);
        r
    }

    /// A reader over the characters of `v`.
    pub fn desde_vector(v: Vec<char>) -> (r: Lector)
        ensures
            r.restantes() == v@,
    {
        let r = Lector { caracteres: v, posicion: 0 };
        assert(r.restantes() =~= v@);
        r
    }

    /// Reads the next character, if there is one left.
    pub fn siguiente(&mut self) -> (r: Option<char>)
        ensures
            old(self).restantes().len() > 0 ==> r == Some(old(self).restantes()[0])
                && final(self).restantes() == old(self).restantes().drop_first(),
            old(self).restantes().len() == 0 ==> r is None && final(self).restantes()
                == old(self).restantes(),
    {
        proof {
            use_type_invariant(&*self);
        }
        if self.posicion < self.caracteres.len() {
            let c = self.caracteres[self.posicion];
            self.posicion = self.posicion + 1;
            assert(self.restantes() =~= old(self).restantes().drop_first());
            Some(c)
        } else {
            None
        }
    }
}

} // verus!
