//! What matching a line does in this matcher: the same state machine as the
//! other matcher, with negated steps and ranges that do not backtrack.
use vstd::prelude::*;
use crate::caracter::lema_coincidencia_acotada;
use crate::clase::analisis::{Analisis, Revision, analizar_expresion, revisar};
use crate::analisis::{primer_barra, partes, lema_primer_barra};
use crate::clase::errors::Error;
use crate::motor::{
    Avance, Estado, coincide_en, fuera_de_linea, retroceso, peso_cola, peso_pila,
    potencial, suma_tam, estado_valido, decrece, estado_inicial, lema_retroceso,
    lema_peso_cola_prefijo,
};
use crate::paso_evaluado::EvaluadoV;
use crate::paso_regex::PasoV;
use crate::repeticion::Repeticion;

verus! {

/// A step to match `n` more times (`tam` bytes so far). When it fails the
/// matcher goes back to where the step started and backtracks; with nothing to
/// backtrack to, the match ends, with success exactly when the step is negated.
/// When a negated step matches, the match ends with failure.
pub open spec fn exacta(
    linea: Seq<char>,
    paso: PasoV,
    negacion: bool,
    n: nat,
    tam: nat,
    i: int,
    cola: Seq<PasoV>,
    pila: Seq<EvaluadoV>,
) -> Avance
    decreases n,
{
    if n == 0 {
        if negacion {
            Avance::Termina(false)
        } else {
            Avance::Sigue(
                Estado { cola, pila: pila.push(EvaluadoV { paso, tam, back: false }), indice: i },
            )
        }
    } else if fuera_de_linea(linea, i) {
        Avance::Aborta
    } else {
        let a = coincide_en(paso.caracter, linea, i);
        if a == 0 {
            match retroceso(pila, seq![paso] + cola, 0) {
                Some((t, p, c)) => Avance::Sigue(Estado { cola: c, pila: p, indice: i - tam - t }),
                None => Avance::Termina(negacion),
            }
        } else {
            exacta(linea, paso, negacion, (n - 1) as nat, tam + a, i + a, cola, pila)
        }
    }
}

/// A step matched as many times as it matches (`*`), each match stacked and able
/// to give back its bytes; a negated one ends the match with failure after its
/// first try.
pub open spec fn alguna(
    linea: Seq<char>,
    paso: PasoV,
    negacion: bool,
    i: int,
    cola: Seq<PasoV>,
    pila: Seq<EvaluadoV>,
) -> Avance
    decreases linea.len() + 4 - i,
{
    if fuera_de_linea(linea, i) {
        Avance::Aborta
    } else {
        let a = coincide_en(paso.caracter, linea, i);
        if a == 0 {
            if negacion {
                Avance::Termina(false)
            } else {
                Avance::Sigue(Estado { cola, pila, indice: i })
            }
        } else if negacion {
            Avance::Termina(false)
        } else {
            proof {
                lema_coincidencia_acotada(paso.caracter, linea.subrange(i, linea.len() as int));
            }
            alguna(
                linea,
                paso,
                negacion,
                i + a,
                cola,
                pila.push(EvaluadoV { paso, tam: a, back: true }),
            )
        }
    }
}

/// A unit matched as many times as it matches, each match stacked (as the range
/// step) and able to give back its bytes. Gives the number of matches, the new
/// position and stack; `None` where it panics.
pub open spec fn rango(linea: Seq<char>, paso: PasoV, cuenta: nat, i: int, pila: Seq<EvaluadoV>) -> Option<
    (nat, int, Seq<EvaluadoV>),
>
    decreases linea.len() + 4 - i,
{
    if fuera_de_linea(linea, i) {
        None
    } else {
        let a = coincide_en(paso.caracter, linea, i);
        if a == 0 {
            Some((cuenta, i, pila))
        } else {
            proof {
                lema_coincidencia_acotada(paso.caracter, linea.subrange(i, linea.len() as int));
            }
            rango(linea, paso, cuenta + 1, i + a, pila.push(EvaluadoV { paso, tam: a, back: true }))
        }
    }
}

/// A step with a range repetition: matched as often as it goes; outside
/// `min..=max` matches (an absent `min` is 0, an absent `max` what is left of the
/// line) the match ends with failure.
pub open spec fn avance_rango(
    linea: Seq<char>,
    paso: PasoV,
    min: Option<usize>,
    max: Option<usize>,
    resto: Seq<PasoV>,
    pila: Seq<EvaluadoV>,
    i: int,
) -> Avance {
    if max is None && i > linea.len() {
        Avance::Aborta
    } else {
        let mn: int = match min {
            Some(m) => m as int,
            None => 0,
        };
        let mx: int = match max {
            Some(m) => m as int,
            None => linea.len() - i,
        };
        match rango(linea, paso, 0, i, pila) {
            None => Avance::Aborta,
            Some((c, i2, p)) => if c < mn || c > mx {
                Avance::Termina(false)
            } else {
                Avance::Sigue(Estado { cola: resto, pila: p, indice: i2 })
            },
        }
    }
}

/// One round of the matcher: the first step of the queue is matched by its
/// repetition. An empty queue means the line matches.
pub open spec fn avanzar(linea: Seq<char>, st: Estado) -> Avance {
    if st.cola.len() == 0 {
        Avance::Termina(true)
    } else {
        let paso = st.cola[0];
        let resto = st.cola.drop_first();
        match paso.repeticion {
            Repeticion::Exacta(n, negacion) => exacta(
                linea,
                paso,
                negacion,
                n as nat,
                0,
                st.indice,
                resto,
                st.pila,
            ),
            Repeticion::Alguna(negacion) => alguna(linea, paso, negacion, st.indice, resto, st.pila),
            Repeticion::Rango { min, max } => avance_rango(
                linea,
                paso,
                min,
                max,
                resto,
                st.pila,
                st.indice,
            ),
        }
    }
}

proof fn lema_exacta(
    linea: Seq<char>,
    paso: PasoV,
    negacion: bool,
    n: nat,
    tam: nat,
    i: int,
    cola: Seq<PasoV>,
    pila: Seq<EvaluadoV>,
)
    requires
        suma_tam(pila) + tam <= i,
        paso.repeticion is Exacta,
    ensures
        exacta(linea, paso, negacion, n, tam, i, cola, pila) matches Avance::Sigue(s) ==> {
            &&& estado_valido(s)
            &&& ({
                ||| (s.cola == cola && peso_pila(linea, s.pila) == peso_pila(linea, pila))
                ||| potencial(linea, s) + 1 == peso_pila(linea, pila) + peso_cola(linea, cola)
            })
        },
    decreases n,
{
    if n == 0 {
        let p2 = pila.push(EvaluadoV { paso, tam, back: false });
        assert(p2.drop_last() =~= pila);
    } else if !fuera_de_linea(linea, i) {
        let a = coincide_en(paso.caracter, linea, i);
        if a == 0 {
            lema_retroceso(linea, pila, seq![paso] + cola, 0);
            lema_peso_cola_prefijo(linea, paso, cola);
        } else {
            lema_exacta(linea, paso, negacion, (n - 1) as nat, tam + a, i + a, cola, pila);
        }
    }
}

proof fn lema_alguna(
    linea: Seq<char>,
    paso: PasoV,
    negacion: bool,
    i: int,
    cola: Seq<PasoV>,
    pila: Seq<EvaluadoV>,
)
    requires
        suma_tam(pila) <= i,
    ensures
        alguna(linea, paso, negacion, i, cola, pila) matches Avance::Sigue(s) ==> {
            &&& estado_valido(s)
            &&& s.cola == cola
            &&& i <= s.indice <= linea.len()
            &&& peso_pila(linea, s.pila) <= peso_pila(linea, pila) + (s.indice - i)
        },
    decreases linea.len() + 4 - i,
{
    if !fuera_de_linea(linea, i) {
        let a = coincide_en(paso.caracter, linea, i);
        if a != 0 && !negacion {
            lema_coincidencia_acotada(paso.caracter, linea.subrange(i, linea.len() as int));
            let p2 = pila.push(EvaluadoV { paso, tam: a, back: true });
            assert(p2.drop_last() =~= pila);
            lema_alguna(linea, paso, negacion, i + a, cola, p2);
        }
    }
}

proof fn lema_rango(linea: Seq<char>, paso: PasoV, cuenta: nat, i: int, pila: Seq<EvaluadoV>)
    requires
        suma_tam(pila) <= i,
    ensures
        rango(linea, paso, cuenta, i, pila) matches Some((c, i2, p2)) ==> {
            &&& suma_tam(p2) <= i2
            &&& i <= i2 <= linea.len()
            &&& cuenta <= c
            &&& peso_pila(linea, p2) <= peso_pila(linea, pila) + (i2 - i)
        },
    decreases linea.len() + 4 - i,
{
    if !fuera_de_linea(linea, i) {
        let a = coincide_en(paso.caracter, linea, i);
        if a != 0 {
            lema_coincidencia_acotada(paso.caracter, linea.subrange(i, linea.len() as int));
            let p2 = pila.push(EvaluadoV { paso, tam: a, back: true });
            assert(p2.drop_last() =~= pila);
            lema_rango(linea, paso, cuenta + 1, i + a, p2);
        }
    }
}

/// Every round keeps the state valid and makes it smaller.
pub proof fn lema_avanzar(linea: Seq<char>, st: Estado)
    requires
        estado_valido(st),
    ensures
        avanzar(linea, st) matches Avance::Sigue(s) ==> estado_valido(s) && decrece(linea, st, s),
{
    if st.cola.len() > 0 {
        let paso = st.cola[0];
        let resto = st.cola.drop_first();
        assert(st.cola =~= seq![paso] + resto);
        lema_peso_cola_prefijo(linea, paso, resto);
        match paso.repeticion {
            Repeticion::Exacta(n, negacion) => {
                lema_exacta(linea, paso, negacion, n as nat, 0, st.indice, resto, st.pila);
            },
            Repeticion::Alguna(negacion) => {
                lema_alguna(linea, paso, negacion, st.indice, resto, st.pila);
            },
            Repeticion::Rango { min, max } => {
                lema_rango(linea, paso, 0, st.indice, st.pila);
            },
        }
    }
}

/// Runs the matcher from a state to its answer; `None` where it panics.
pub open spec fn ejecutar(linea: Seq<char>, st: Estado) -> Option<bool>
    decreases potencial(linea, st), st.cola.len(),
    when estado_valido(st)
{
    match avanzar(linea, st) {
        Avance::Termina(b) => Some(b),
        Avance::Aborta => None,
        Avance::Sigue(s) => {
            proof {
                lema_avanzar(linea, st);
            }
            ejecutar(linea, s)
        },
    }
}

/// The answer of matching a line against steps; `None` where it panics.
pub open spec fn resultado(linea: Seq<char>, pasos: Seq<PasoV>) -> Option<bool> {
    ejecutar(linea, estado_inicial(pasos))
}

/// Matching a line against the alternatives of `s` in turn, until one matches or
/// one fails; `None` where it panics.
pub open spec fn evaluar_alternativas(s: Seq<char>, linea: Seq<char>) -> Option<Result<bool, Error>>
    decreases s.len(),
{
    let k = primer_barra(s);
    match analizar_expresion(s.take(k as int)) {
        Analisis::Aborta => None,
        Analisis::Falla { error, .. } => Some(Err(error)),
        Analisis::Listo { pasos, .. } => if !vstd::utf8::is_ascii_chars(linea) {
            Some(Err(Error::FormatoDeLineaNoASCII))
        } else {
            match resultado(linea, pasos) {
                None => None,
                Some(true) => Some(Ok(true)),
                Some(false) => if k >= s.len() {
                    Some(Ok(false))
                } else {
                    proof {
                        lema_primer_barra(s);
                    }
                    evaluar_alternativas(s.skip(k as int + 1), linea)
                },
            }
        },
    }
}

/// Matching a line against a whole expression: first how it is written is
/// checked, then its alternatives are tried; `None` where it panics.
pub open spec fn valida_general(e: Seq<char>, linea: Seq<char>) -> Option<Result<bool, Error>> {
    match revisar(e, 0, 0) {
        Revision::Aborta => None,
        Revision::Incorrecta(error) => Some(Err(error)),
        Revision::Correcta => evaluar_alternativas(e, linea),
    }
}

/// Whether an alternative, read on its own, matches the line.
pub open spec fn alternativa_coincide(parte: Seq<char>, linea: Seq<char>) -> bool {
    match analizar_expresion(parte) {
        Analisis::Listo { pasos, .. } => resultado(linea, pasos) == Some(true),
        _ => false,
    }
}

/// Whether an alternative reads without error and its match does not panic.
pub open spec fn alternativa_sana(parte: Seq<char>, linea: Seq<char>) -> bool {
    match analizar_expresion(parte) {
        Analisis::Listo { pasos, .. } => resultado(linea, pasos) is Some,
        _ => false,
    }
}

proof fn lema_alternativas(s: Seq<char>, linea: Seq<char>)
    requires
        vstd::utf8::is_ascii_chars(linea),
        forall|i: int| 0 <= i < partes(s).len() ==> alternativa_sana(#[trigger] partes(s)[i], linea),
    ensures
        evaluar_alternativas(s, linea) == Some(Ok::<bool, Error>(
            exists|i: int| 0 <= i < partes(s).len() && alternativa_coincide(#[trigger] partes(s)[i], linea),
        )),
    decreases s.len(),
{
    lema_primer_barra(s);
    let k = primer_barra(s);
    if k >= s.len() {
        assert(s.take(k as int) =~= s);
        assert(partes(s) == seq![s]);
        assert(alternativa_sana(partes(s)[0], linea));
        if alternativa_coincide(s, linea) {
            assert(alternativa_coincide(partes(s)[0], linea));
        }
    } else {
        let resto = s.skip(k as int + 1);
        assert(partes(s) == seq![s.take(k as int)] + partes(resto));
        assert(partes(s)[0] == s.take(k as int));
        assert(alternativa_sana(partes(s)[0], linea));
        assert forall|i: int| 0 <= i < partes(resto).len() implies alternativa_sana(#[trigger] partes(resto)[i], linea) by {
            assert(partes(s)[i + 1] == partes(resto)[i]);
        }
        lema_alternativas(resto, linea);
        if alternativa_coincide(s.take(k as int), linea) {
            assert(alternativa_coincide(partes(s)[0], linea));
        } else {
            if exists|i: int| 0 <= i < partes(s).len() && alternativa_coincide(#[trigger] partes(s)[i], linea) {
                let i = choose|i: int| 0 <= i < partes(s).len() && alternativa_coincide(#[trigger] partes(s)[i], linea);
                assert(i > 0);
                assert(partes(s)[i] == partes(resto)[i - 1]);
            }
            if exists|i: int| 0 <= i < partes(resto).len() && alternativa_coincide(#[trigger] partes(resto)[i], linea) {
                let i = choose|i: int| 0 <= i < partes(resto).len() && alternativa_coincide(#[trigger] partes(resto)[i], linea);
                assert(partes(s)[i + 1] == partes(resto)[i]);
            }
        }
    }
}

/// An expression with alternatives `a|b|...` matches a line exactly when one of
/// its alternatives, read on its own, matches it (where the expression is well
/// written, the line is ASCII, and every alternative reads without error and
/// matches without panicking).
pub proof fn ley_alternativas(e: Seq<char>, linea: Seq<char>)
    requires
        revisar(e, 0, 0) is Correcta,
        vstd::utf8::is_ascii_chars(linea),
        forall|i: int| 0 <= i < partes(e).len() ==> alternativa_sana(#[trigger] partes(e)[i], linea),
    ensures
        valida_general(e, linea) == Some(Ok::<bool, Error>(
            exists|i: int| 0 <= i < partes(e).len() && alternativa_coincide(#[trigger] partes(e)[i], linea),
        )),
{
    lema_alternativas(e, linea);
}

} // verus!
