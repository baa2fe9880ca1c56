//! What reading an expression gives in this matcher.
use vstd::prelude::*;
use crate::analisis::{
    DecisionLlave, LecturaLlave, LecturaCorchete, decidir_llave, leer_llave, leer_corchete,
    clase_de_corchete, paso_unitario, no_hay_anterior, con_repeticion, es_literal_simple,
    pasos_iniciales, lema_leer_llave_consume, lema_leer_corchete_consume,
};
use crate::caracter::CaracterV;
use crate::clase::errors::Error;
use crate::clase_char::ClaseCharV;
use crate::paso_regex::PasoV;
use crate::repeticion::Repeticion;

verus! {

/// The outcome of reading (part of) an expression: the steps so far and the
/// characters not read yet; or an error, with the steps and the characters left
/// where it stopped; or a read that panics.
pub enum Analisis {
    Listo { pasos: Seq<PasoV>, resto: Seq<char> },
    Falla { error: Error, pasos: Seq<PasoV>, resto: Seq<char> },
    Aborta,
}

/// `{...}`: sets the repetition of the last step, which must not be the leading
/// `.*`. Without a previous step the brace is skipped.
pub open spec fn paso_llave(pasos: Seq<PasoV>, resto: Seq<char>) -> Analisis {
    if pasos.len() == 0 {
        Analisis::Listo { pasos, resto }
    } else if no_hay_anterior(pasos.last()) {
        Analisis::Falla { error: Error::CaracterNoProcesable, pasos, resto }
    } else {
        match leer_llave(resto, seq![], seq![]) {
            LecturaLlave::NoDigito { resto: r } => Analisis::Falla {
                error: Error::ErrorEnLlaves,
                pasos,
                resto: r,
            },
            LecturaLlave::Leida { contenido, resto: r, .. } => match decidir_llave(contenido, false) {
                DecisionLlave::Rep(rep) => Analisis::Listo {
                    pasos: con_repeticion(pasos, rep),
                    resto: r,
                },
                DecisionLlave::Invalida => Analisis::Falla {
                    error: Error::ErrorEnLlaves,
                    pasos,
                    resto: r,
                },
            },
        }
    }
}

/// The class that a bracket stands for, leaving its negation aside; `None` where
/// reading it panics.
pub open spec fn clase_sin_negar(l: LecturaCorchete) -> Option<ClaseCharV> {
    clase_de_corchete(LecturaCorchete { negado: false, ..l })
}

/// `[...]`: adds a step that matches the class once; a negated bracket negates
/// the step's repetition.
pub open spec fn paso_corchete(pasos: Seq<PasoV>, resto: Seq<char>) -> Analisis {
    let l = leer_corchete(resto, 1, false, false, seq![]);
    match clase_sin_negar(l) {
        Some(clase) => Analisis::Listo {
            pasos: pasos.push(
                PasoV {
                    caracter: CaracterV::Serie(clase),
                    repeticion: Repeticion::Exacta(1, l.negado),
                },
            ),
            resto: l.resto,
        },
        None => Analisis::Aborta,
    }
}

/// `?` and `+`: sets the repetition of the last step, which must not be the
/// leading `.*`.
pub open spec fn paso_repeticion(pasos: Seq<PasoV>, resto: Seq<char>, rep: Repeticion) -> Analisis {
    if pasos.len() == 0 {
        Analisis::Listo { pasos, resto }
    } else if no_hay_anterior(pasos.last()) {
        Analisis::Falla { error: Error::ErrorEnRepeticion, pasos, resto }
    } else {
        Analisis::Listo { pasos: con_repeticion(pasos, rep), resto }
    }
}

/// `*`: reads what follows as a bracket's contents; the last step is repeated any
/// number of times, negated when those contents hold a `^`.
pub open spec fn paso_asterisco(pasos: Seq<PasoV>, resto: Seq<char>) -> Analisis {
    if pasos.len() == 0 {
        Analisis::Listo { pasos, resto }
    } else if no_hay_anterior(pasos.last()) {
        Analisis::Falla { error: Error::ErrorEnRepeticion, pasos, resto }
    } else {
        let l = leer_corchete(resto, 1, false, false, seq![]);
        match clase_sin_negar(l) {
            Some(_) => Analisis::Listo {
                pasos: con_repeticion(pasos, Repeticion::Alguna(l.negado)),
                resto: l.resto,
            },
            None => Analisis::Aborta,
        }
    }
}

/// What one character `c` of the expression does to the steps read so far.
pub open spec fn fabricar_paso(c: char, pasos: Seq<PasoV>, resto: Seq<char>) -> Analisis {
    if c == '.' {
        Analisis::Listo { pasos: pasos.push(paso_unitario(CaracterV::Comodin)), resto }
    } else if es_literal_simple(c) {
        Analisis::Listo { pasos: pasos.push(paso_unitario(CaracterV::Literal(c))), resto }
    } else if c == '{' {
        paso_llave(pasos, resto)
    } else if c == '[' {
        paso_corchete(pasos, resto)
    } else if c == '?' {
        paso_repeticion(pasos, resto, Repeticion::Rango { min: Some(0), max: Some(1) })
    } else if c == '*' {
        paso_asterisco(pasos, resto)
    } else if c == '+' {
        paso_repeticion(pasos, resto, Repeticion::Rango { min: Some(1), max: None })
    } else if c == '\\' {
        if resto.len() == 0 {
            Analisis::Falla { error: Error::CaracterNoProcesable, pasos, resto }
        } else {
            Analisis::Listo {
                pasos: pasos.push(paso_unitario(CaracterV::Literal(resto[0]))),
                resto: resto.drop_first(),
            }
        }
    } else if c == '$' {
        Analisis::Listo { pasos: pasos.push(paso_unitario(CaracterV::Dolar)), resto }
    } else if c == '^' || c == '|' {
        Analisis::Listo { pasos, resto }
    } else {
        Analisis::Falla { error: Error::CaracterNoProcesable, pasos, resto }
    }
}

/// ASCII letters, ASCII digits and the space stand for themselves: each reads into
/// one new step that matches that very character once, and nothing else changes.
pub proof fn ley_paso_literal(c: char, pasos: Seq<PasoV>, resto: Seq<char>)
    requires
        ('a' <= c && c <= 'z') || ('A' <= c && c <= 'Z') || ('0' <= c && c <= '9') || c == ' ',
    ensures
        fabricar_paso(c, pasos, resto) == (Analisis::Listo {
            pasos: pasos.push(PasoV { caracter: CaracterV::Literal(c), repeticion: Repeticion::Exacta(1, false) }),
            resto,
        }),
{
}

/// A backslash makes the character after it stand for itself, whatever it is:
/// it reads into one new step that matches that character once, and that
/// character is used up.
pub proof fn ley_paso_escapado(pasos: Seq<PasoV>, resto: Seq<char>)
    requires
        resto.len() > 0,
    ensures
        fabricar_paso('\\', pasos, resto) == (Analisis::Listo {
            pasos: pasos.push(
                PasoV { caracter: CaracterV::Literal(resto[0]), repeticion: Repeticion::Exacta(1, false) },
            ),
            resto: resto.drop_first(),
        }),
{
}

/// Reading a character never gives back characters already read.
pub proof fn lema_fabricar_consume(c: char, pasos: Seq<PasoV>, resto: Seq<char>)
    ensures
        fabricar_paso(c, pasos, resto) matches Analisis::Listo { resto: r, .. } ==> r.len()
            <= resto.len(),
{
    lema_leer_llave_consume(resto, seq![], seq![]);
    lema_leer_corchete_consume(resto, 1, false, false, seq![]);
}

/// Reads the rest of an expression, step by step.
pub open spec fn analizar(pasos: Seq<PasoV>, resto: Seq<char>) -> Analisis
    decreases resto.len(),
{
    if resto.len() == 0 {
        Analisis::Listo { pasos, resto }
    } else {
        match fabricar_paso(resto[0], pasos, resto.drop_first()) {
            Analisis::Listo { pasos: p, resto: r } => {
                proof {
                    lema_fabricar_consume(resto[0], pasos, resto.drop_first());
                }
                analizar(p, r)
            },
            otro => otro,
        }
    }
}

/// No character makes the reading panic: each gives steps or an error.
pub proof fn lema_fabricar_no_aborta(c: char, pasos: Seq<PasoV>, resto: Seq<char>)
    ensures
        !(fabricar_paso(c, pasos, resto) is Aborta),
{
}

/// Reading an expression never panics: it ends with steps or with an error.
pub proof fn lema_analizar_no_aborta(pasos: Seq<PasoV>, resto: Seq<char>)
    ensures
        !(analizar(pasos, resto) is Aborta),
    decreases resto.len(),
{
    if resto.len() > 0 {
        let c = resto[0];
        let r = resto.drop_first();
        lema_fabricar_no_aborta(c, pasos, r);
        match fabricar_paso(c, pasos, r) {
            Analisis::Listo { pasos: p, resto: r2 } => {
                lema_fabricar_consume(c, pasos, r);
                lema_analizar_no_aborta(p, r2);
            },
            _ => {},
        }
    }
}

/// What reading a whole expression gives.
pub open spec fn analizar_expresion(e: Seq<char>) -> Analisis {
    analizar(pasos_iniciales(e), e)
}

/// The outcome of checking how an expression is written.
pub enum Revision {
    Correcta,
    Incorrecta(Error),
    Aborta,
}

/// Checks that braces and brackets open before they close and are all closed,
/// and that no `|` stands inside them; a count that leaves the range of `i32`
/// panics.
pub open spec fn revisar(e: Seq<char>, llaves: int, corchetes: int) -> Revision
    decreases e.len(),
{
    if e.len() == 0 {
        if llaves != 0 {
            Revision::Incorrecta(Error::ErrorEnLlaves)
        } else if corchetes != 0 {
            Revision::Incorrecta(Error::ErrorEnCorchetes)
        } else {
            Revision::Correcta
        }
    } else {
        let c = e[0];
        let r = e.drop_first();
        if c == '{' {
            if llaves + 1 > i32::MAX { Revision::Aborta } else { revisar(r, llaves + 1, corchetes) }
        } else if c == '}' {
            if llaves <= 0 { Revision::Incorrecta(Error::ErrorEnLlaves) } else { revisar(r, llaves - 1, corchetes) }
        } else if c == '[' {
            if corchetes + 1 > i32::MAX { Revision::Aborta } else { revisar(r, llaves, corchetes + 1) }
        } else if c == ']' {
            if corchetes <= 0 { Revision::Incorrecta(Error::ErrorEnCorchetes) } else { revisar(r, llaves, corchetes - 1) }
        } else if c == '|' {
            if llaves != 0 || corchetes != 0 {
                Revision::Incorrecta(Error::ErrorEnFuncionOR)
            } else {
                revisar(r, llaves, corchetes)
            }
        } else {
            revisar(r, llaves, corchetes)
        }
    }
}

} // verus!
