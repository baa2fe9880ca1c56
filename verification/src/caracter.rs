//! The unit that a step of an expression matches against the text.
use vstd::prelude::*;
use crate::clase_char::{ClaseChar, ClaseCharV};
use crate::texto::{puntuacion_ascii, ley_puntuacion, ley_digitos, es_ascii_alfabetico, alfanumerico, es_ascii_digito, minuscula, mayuscula, espacio, es_ascii_puntuacion, longitud_utf8, ascii_alfabetico, ascii_digito, ascii_puntuacion, largo_utf8, contiene, primer_caracter};

verus! {

/// A literal character, the wildcard `.`, a character class, or the end of the
/// text (`$`).
#[derive(Debug)]
pub enum Caracter {
    Literal(char),
    Comodin,
    Serie(ClaseChar),
    Dolar,
}

/// What a `Caracter` stands for.
pub enum CaracterV {
    Literal(char),
    Comodin,
    Serie(ClaseCharV),
    Dolar,
}

impl View for Caracter {
    type V = CaracterV;

    open spec fn view(&self) -> CaracterV {
        match self {
            Caracter::Literal(l) => CaracterV::Literal(*l),
            Caracter::Comodin => CaracterV::Comodin,
            Caracter::Serie(c) => CaracterV::Serie(c@),
            Caracter::Dolar => CaracterV::Dolar,
        }
    }
}

impl Clone for Caracter {
    fn clone(&self) -> (r: Self)
        ensures
            r@ == self@,
    {
        match self {
            Caracter::Literal(l) => Caracter::Literal(*l),
            Caracter::Comodin => Caracter::Comodin,
            Caracter::Serie(c) => Caracter::Serie(c.clone()),
            Caracter::Dolar => Caracter::Dolar,
        }
    }
}

/// Whether `c` belongs to the class: the class's own test, flipped when the class
/// is negated.
pub open spec fn pertenece(clase: ClaseCharV, c: char) -> bool {
    match clase {
        ClaseCharV::Alpha(n) => es_ascii_alfabetico(c) != n,
        ClaseCharV::Alnum(n) => alfanumerico(c) != n,
        ClaseCharV::Digit(n) => es_ascii_digito(c) != n,
        ClaseCharV::Lower(n) => minuscula(c) != n,
        ClaseCharV::Upper(n) => mayuscula(c) != n,
        ClaseCharV::Space(n) => espacio(c) != n,
        ClaseCharV::Punct(n) => es_ascii_puntuacion(c) != n,
        ClaseCharV::Simple(s, n) => s.contains(c) != n,
    }
}

/// Whether a unit accepts a character of the line (`$` accepts none).
pub open spec fn admite(u: CaracterV, d: char) -> bool {
    match u {
        CaracterV::Literal(l) => l == d,
        CaracterV::Comodin => true,
        CaracterV::Serie(clase) => pertenece(clase, d),
        CaracterV::Dolar => false,
    }
}

/// `[[:punct:]]` accepts exactly the ASCII punctuation characters, `[[:digit:]]`
/// exactly the ten ASCII digits, `[[:alpha:]]` exactly the ASCII letters; a
/// negated class accepts exactly the others.
pub proof fn ley_clases_ascii(c: char, negada: bool)
    ensures
        pertenece(ClaseCharV::Punct(negada), c) == (puntuacion_ascii().contains(c) != negada),
        pertenece(ClaseCharV::Digit(negada), c) == (set!['0', '1', '2', '3', '4', '5', '6', '7', '8', '9'].contains(c)
            != negada),
        pertenece(ClaseCharV::Alpha(negada), c) == ((('a' <= c && c <= 'z') || ('A' <= c && c <= 'Z')) != negada),
{
    ley_puntuacion(c);
    ley_digitos(c);
}

/// How many bytes at the start of `texto` the unit matches: the UTF-8 length of
/// the first character when it matches, 0 when it does not. `$` matches (with
/// length 1) exactly the empty text.
pub open spec fn longitud_coincidencia(car: CaracterV, texto: Seq<char>) -> nat {
    match car {
        CaracterV::Literal(l) => if texto.len() > 0 && texto[0] == l {
            longitud_utf8(l)
        } else {
            0
        },
        CaracterV::Comodin => if texto.len() > 0 {
            longitud_utf8(texto[0])
        } else {
            0
        },
        CaracterV::Serie(clase) => if texto.len() > 0 && pertenece(clase, texto[0]) {
            longitud_utf8(texto[0])
        } else {
            0
        },
        CaracterV::Dolar => if texto.len() > 0 {
            0
        } else {
            1
        },
    }
}

/// On an ASCII text a unit other than `$` matches one byte exactly when the text
/// starts with a character that it accepts, and nothing otherwise; `$` matches
/// (with length 1) only the empty text.
pub proof fn ley_coincidencia_ascii(car: CaracterV, texto: Seq<char>)
    requires
        vstd::utf8::is_ascii_chars(texto),
    ensures
        !(car is Dolar) ==> longitud_coincidencia(car, texto) == (if texto.len() > 0 && admite(car, texto[0]) {
            1nat
        } else {
            0nat
        }),
        car is Dolar ==> longitud_coincidencia(car, texto) == (if texto.len() == 0 {
            1nat
        } else {
            0nat
        }),
{
    if texto.len() > 0 {
        assert('\0' <= texto[0] <= '\u{7f}');
    }
}

/// A unit matches at most 4 bytes, and at most 1 of an ASCII text.
pub proof fn lema_coincidencia_acotada(car: CaracterV, texto: Seq<char>)
    ensures
        longitud_coincidencia(car, texto) <= 4,
        vstd::utf8::is_ascii_chars(texto) ==> longitud_coincidencia(car, texto) <= 1,
{
    if texto.len() > 0 && vstd::utf8::is_ascii_chars(texto) {
        assert('\0' <= texto[0] <= '\u{7f}');
    }
}

fn pertenece_clase(clase: &ClaseChar, c: char) -> (r: bool)
    ensures
        r == pertenece(clase@, c),
{
    match clase {
        ClaseChar::Alpha(n) => ascii_alfabetico(c) != *n,
        ClaseChar::Alnum(n) => c.is_alphanumeric() != *n,
        ClaseChar::Digit(n) => ascii_digito(c) != *n,
        ClaseChar::Lower(n) => c.is_lowercase() != *n,
        ClaseChar::Upper(n) => c.is_uppercase() != *n,
        ClaseChar::Space(n) => c.is_whitespace() != *n,
        ClaseChar::Punct(n) => ascii_puntuacion(c) != *n,
        ClaseChar::Simple(lista, n) => {
            let r = contiene(lista, c);
            proof {
                if r {
                    assert(lista@.to_set().contains(c));
                } else {
                    assert(!lista@.to_set().contains(c));
                }
            }
            r != *n
        },
    }
}

/// The UTF-8 length of the first character of `valor` when it belongs to the
/// class, 0 otherwise.
fn calcular_longitud_utf8_clase(valor: &str, clase: &ClaseChar) -> (r: usize)
    ensures
        r == (if valor@.len() > 0 && pertenece(clase@, valor@[0]) {
            longitud_utf8(valor@[0])
        } else {
            0
        }),
{
    if let Some(c) = primer_caracter(valor) {
        if pertenece_clase(clase, c) {
            largo_utf8(c)
        } else {
            0
        }
    } else {
        0
    }
}

/// The UTF-8 length of `l` when `valor` starts with it, 0 otherwise.
pub(crate) fn calcular_longitud_utf8_literal(valor: &str, l: &char) -> (r: usize)
    ensures
        r == (if valor@.len() > 0 && valor@[0] == *l {
            longitud_utf8(*l)
        } else {
            0
        }),
{
    match primer_caracter(valor) {
        Some(c) if c == *l => largo_utf8(*l),
        _ => 0,
    }
}

/// The UTF-8 length of the first character of `valor`, 0 when it is empty.
pub(crate) fn calcular_longitud_utf8_comodin(valor: &str) -> (r: usize)
    ensures
        r == (if valor@.len() > 0 {
            longitud_utf8(valor@[0])
        } else {
            0
        }),
{
    if let Some(c) = primer_caracter(valor) {
        largo_utf8(c)
    } else {
        0
    }
}

/// 1 when `valor` is empty, 0 otherwise.
pub(crate) fn calcular_longitud_utf8_dolar(valor: &str) -> (r: usize)
    ensures
        r == (if valor@.len() > 0 {
            0nat
        } else {
            1nat
        }),
{
    if primer_caracter(valor).is_some() {
        0
    } else {
        1
    }
}

impl Caracter {
    /// Whether this unit accepts the character `c`.
    pub(crate) fn admite_caracter(&self, c: char) -> (r: bool)
        ensures
            r == admite(self@, c),
    {
        match self {
            Caracter::Literal(l) => *l == c,
            Caracter::Comodin => true,
            Caracter::Serie(clase) => pertenece_clase(clase, c),
            Caracter::Dolar => false,
        }
    }

    /// How many bytes at the start of `valor` this unit matches (0 when it does
    /// not match).
    pub fn coincide(&self, valor: &str) -> (r: usize)
        ensures
            r == longitud_coincidencia(self@, valor@),
            r <= 4,
    {
        match self {
            Caracter::Literal(l) => calcular_longitud_utf8_literal(valor, l),
            Caracter::Comodin => calcular_longitud_utf8_comodin(valor),
            Caracter::Serie(clase) => calcular_longitud_utf8_clase(valor, clase),
            Caracter::Dolar => calcular_longitud_utf8_dolar(valor),
        }
    }
}

} // verus!
