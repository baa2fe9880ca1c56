//! The state machine that the matcher of the `clase` module runs: a queue of
//! steps still to match, a stack of matched steps and a position in the line,
//! with backtracking; and the measure by which it always stops.
use vstd::prelude::*;
use crate::caracter::{CaracterV, longitud_coincidencia};
use crate::paso_evaluado::EvaluadoV;
use crate::paso_regex::PasoV;
use crate::repeticion::Repeticion;

verus! {

/// The state of the matcher: steps still to match, matched steps (the last one on
/// top) and the position in the line.
pub struct Estado {
    pub cola: Seq<PasoV>,
    pub pila: Seq<EvaluadoV>,
    pub indice: int,
}

/// What one round of the matcher does: go on from a new state, stop with an
/// answer, or panic.
pub enum Avance {
    Sigue(Estado),
    Termina(bool),
    Aborta,
}

/// How many bytes a unit matches at position `i` of the line.
pub open spec fn coincide_en(car: CaracterV, linea: Seq<char>, i: int) -> nat {
    longitud_coincidencia(car, linea.subrange(i, linea.len() as int))
}

/// Slicing the line at `i` panics.
pub open spec fn fuera_de_linea(linea: Seq<char>, i: int) -> bool {
    i < 0 || i > linea.len()
}

/// Backtracking: pops matched steps, putting each back in front of the queue,
/// until one that may give back its bytes is popped (that one is dropped). Gives
/// the bytes given back in all, the stack and the queue; `None` when no matched
/// step may give back bytes.
pub open spec fn retroceso(pila: Seq<EvaluadoV>, cola: Seq<PasoV>, acumulado: nat) -> Option<
    (nat, Seq<EvaluadoV>, Seq<PasoV>),
>
    decreases pila.len(),
{
    if pila.len() == 0 {
        None
    } else {
        let e = pila.last();
        let total = acumulado + e.tam;
        if e.back {
            Some((total, pila.drop_last(), cola))
        } else {
            retroceso(pila.drop_last(), seq![e.paso] + cola, total)
        }
    }
}

/// Steps that can stack matches able to give back bytes (`*` and ranges) weigh
/// more than any number of such matches on a line.
pub open spec fn peso_paso(linea: Seq<char>, p: PasoV) -> nat {
    match p.repeticion {
        Repeticion::Exacta(..) => 0,
        _ => linea.len() + 2,
    }
}

pub open spec fn peso_cola(linea: Seq<char>, cola: Seq<PasoV>) -> nat
    decreases cola.len(),
{
    if cola.len() == 0 {
        0
    } else {
        peso_paso(linea, cola[0]) + peso_cola(linea, cola.drop_first())
    }
}

pub open spec fn peso_evaluado(linea: Seq<char>, e: EvaluadoV) -> nat {
    if e.back {
        1
    } else {
        peso_paso(linea, e.paso)
    }
}

pub open spec fn peso_pila(linea: Seq<char>, pila: Seq<EvaluadoV>) -> nat
    decreases pila.len(),
{
    if pila.len() == 0 {
        0
    } else {
        peso_pila(linea, pila.drop_last()) + peso_evaluado(linea, pila.last())
    }
}

/// What is left for the matcher to do, in a measure that every round makes
/// smaller (or leaves equal while the queue gets shorter).
pub open spec fn potencial(linea: Seq<char>, st: Estado) -> nat {
    peso_cola(linea, st.cola) + peso_pila(linea, st.pila)
}

/// The bytes matched by the stacked steps.
pub open spec fn suma_tam(pila: Seq<EvaluadoV>) -> nat
    decreases pila.len(),
{
    if pila.len() == 0 {
        0
    } else {
        suma_tam(pila.drop_last()) + pila.last().tam
    }
}

/// The stacked steps never hold more bytes than the position.
pub open spec fn estado_valido(st: Estado) -> bool {
    suma_tam(st.pila) <= st.indice
}

/// A round measure: smaller potential, or the same potential and a shorter queue.
pub open spec fn decrece(linea: Seq<char>, a: Estado, b: Estado) -> bool {
    ||| potencial(linea, b) < potencial(linea, a)
    ||| (potencial(linea, b) == potencial(linea, a) && b.cola.len() < a.cola.len())
}

pub proof fn lema_peso_cola_prefijo(linea: Seq<char>, p: PasoV, cola: Seq<PasoV>)
    ensures
        peso_cola(linea, seq![p] + cola) == peso_paso(linea, p) + peso_cola(linea, cola),
{
    let s = seq![p] + cola;
    assert(s.drop_first() =~= cola);
}

pub proof fn lema_retroceso(linea: Seq<char>, pila: Seq<EvaluadoV>, cola: Seq<PasoV>, acumulado: nat)
    ensures
        retroceso(pila, cola, acumulado) matches Some((t, p, c)) ==> {
            &&& suma_tam(pila) + acumulado == suma_tam(p) + t
            &&& peso_pila(linea, p) + peso_cola(linea, c) + 1 == peso_pila(linea, pila) + peso_cola(
                linea,
                cola,
            )
        },
    decreases pila.len(),
{
    if pila.len() > 0 {
        let e = pila.last();
        if !e.back {
            lema_retroceso(linea, pila.drop_last(), seq![e.paso] + cola, acumulado + e.tam);
            lema_peso_cola_prefijo(linea, e.paso, cola);
        }
    }
}

/// Backtracking never gives back more bytes than the stack holds.
pub proof fn lema_retroceso_exec(pila: Seq<EvaluadoV>, cola: Seq<PasoV>)
    ensures
        retroceso(pila, cola, 0) matches Some((t, p, c)) ==> t <= suma_tam(pila),
{
    lema_retroceso(Seq::empty(), pila, cola, 0);
}

/// The state the matcher starts from: all steps queued, nothing matched, at the
/// start of the line.
pub open spec fn estado_inicial(pasos: Seq<PasoV>) -> Estado {
    Estado { cola: pasos, pila: seq![], indice: 0 }
}

} // verus!
