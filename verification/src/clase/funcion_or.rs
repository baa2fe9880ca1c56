//! Where an alternative `|` stands with respect to brackets.
use vstd::prelude::*;

verus! {

/// Whether some `|` of `e` stands where no `]` has been seen yet, or where both a
/// `[` and a `]` have been seen (`abierto` and `cerrado` say which of them were
/// seen before `e`).
pub open spec fn hay_funcion_or(e: Seq<char>, abierto: bool, cerrado: bool) -> bool
    decreases e.len(),
{
    if e.len() == 0 {
        false
    } else {
        let c = e[0];
        let abierto2 = abierto || c == '[';
        let cerrado2 = cerrado || c == ']';
        if (abierto2 && cerrado2 && c == '|') || (!cerrado2 && c == '|') {
            true
        } else {
            hay_funcion_or(e.drop_first(), abierto2, cerrado2)
        }
    }
}

/// Whether the expression holds an alternative `|` outside a pair of brackets
/// that has been opened but not closed yet.
pub fn verificar_funcion_or(expresion: &str) -> (r: bool)
    ensures
        r == hay_funcion_or(expresion@, false, false),
{
    let mut hay_corchete_abierto = false;
    let mut hay_corchete_cerrado = false;
    assert(expresion@.skip(0) =~= expresion@);
    for c in iter: expresion.chars()
        invariant
            iter.seq() == expresion@,
            hay_funcion_or(expresion@.skip(iter.index() as int), hay_corchete_abierto, hay_corchete_cerrado)
                == hay_funcion_or(expresion@, false, false),
    {
        let ghost resto = expresion@.skip(iter.index() as int);
        assert(resto[0] == c);
        assert(resto.drop_first() =~= expresion@.skip(iter.index() + 1));
        if c == '[' {
            hay_corchete_abierto = true;
        }
        if c == ']' {
            hay_corchete_cerrado = true;
        }
        if hay_corchete_abierto && hay_corchete_cerrado && c == '|' || !hay_corchete_cerrado
            && !hay_corchete_cerrado && c == '|' {
            return true;
        }
    }
    false
}

} // verus!
