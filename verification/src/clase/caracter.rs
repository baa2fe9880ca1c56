//! The unit that a step of an expression matches against the text.
use vstd::prelude::*;
use crate::caracter::{
    CaracterV, pertenece, longitud_coincidencia, calcular_longitud_utf8_literal,
    calcular_longitud_utf8_comodin, calcular_longitud_utf8_dolar,
};
use crate::clase::clase_char::ClaseChar;
use crate::texto::{
    longitud_utf8, ascii_alfabetico, ascii_digito, ascii_puntuacion, largo_utf8, contiene,
    primer_caracter,
};

verus! {

/// A literal character, the wildcard `.`, a character class, or the end of the
/// text (`$`).
#[derive(Debug)]
pub enum Caracter {
    Literal(char),
    Comodin,
    Serie(ClaseChar),
    Dolar,
}

impl View for Caracter {
    type V = CaracterV;

    open spec fn view(&self) -> CaracterV {
        match self {
            Caracter::Literal(l) => CaracterV::Literal(*l),
            Caracter::Comodin => CaracterV::Comodin,
            Caracter::Serie(c) => CaracterV::Serie(c@),
            Caracter::Dolar => CaracterV::Dolar,
        }
    }
}

impl Clone for Caracter {
    fn clone(&self) -> (r: Self)
        ensures
            r@ == self@,
    {
        match self {
            Caracter::Literal(l) => Caracter::Literal(*l),
            Caracter::Comodin => Caracter::Comodin,
            Caracter::Serie(c) => Caracter::Serie(c.clone()),
            Caracter::Dolar => Caracter::Dolar,
        }
    }
}

fn pertenece_clase(clase: &ClaseChar, c: char) -> (r: bool)
    ensures
        r == pertenece(clase@, c),
{
    match clase {
        ClaseChar::Alpha => ascii_alfabetico(c),
        ClaseChar::Alnum => c.is_alphanumeric(),
        ClaseChar::Digit => ascii_digito(c),
        ClaseChar::Lower => c.is_lowercase(),
        ClaseChar::Upper => c.is_uppercase(),
        ClaseChar::Space => c.is_whitespace(),
        ClaseChar::Punct => ascii_puntuacion(c),
        ClaseChar::Simple(lista) => {
            let r = contiene(lista, c);
            proof {
                if r {
                    assert(lista@.to_set().contains(c));
                } else {
                    assert(!lista@.to_set().contains(c));
                }
            }
            r
        },
    }
}

/// The UTF-8 length of the first character of `valor` when it belongs to the
/// class, 0 otherwise.
fn calcular_longitud_utf8_clase(valor: &str, clase: &ClaseChar) -> (r: usize)
    ensures
        r == (if valor@.len() > 0 && pertenece(clase@, valor@[0]) {
            longitud_utf8(valor@[0])
        } else {
            0
        }),
{
    if let Some(c) = primer_caracter(valor) {
        if pertenece_clase(clase, c) {
            largo_utf8(c)
        } else {
            0
        }
    } else {
        0
    }
}

impl Caracter {
    /// How many bytes at the start of `valor` this unit matches (0 when it does
    /// not match).
    pub fn coincide(&self, valor: &str) -> (r: usize)
        ensures
            r == longitud_coincidencia(self@, valor@),
            r <= 4,
    {
        match self {
            Caracter::Literal(l) => calcular_longitud_utf8_literal(valor, l),
            Caracter::Comodin => calcular_longitud_utf8_comodin(valor),
            Caracter::Serie(clase) => calcular_longitud_utf8_clase(valor, clase),
            Caracter::Dolar => calcular_longitud_utf8_dolar(valor),
        }
    }
}

} // verus!
