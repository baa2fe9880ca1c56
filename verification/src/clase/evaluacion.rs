//! When matching a line in this matcher never reads past its end: `$` is the only
//! unit that matches at the end of the line, and it moves past it; so where `$`
//! is the last step, matched at most once, the matcher always answers.
use vstd::prelude::*;
use crate::analisis::{lema_primer_barra, partes, primer_barra};
use crate::clase::analisis::{Analisis, analizar_expresion, revisar};
use crate::clase::motor::{
    alguna, avanzar, ejecutar, evaluar_alternativas, exacta, lema_avanzar, rango,
    resultado, valida_general,
};
use crate::caracter::{CaracterV, lema_coincidencia_acotada};
use crate::motor::{Avance, Estado, coincide_en, estado_inicial, estado_valido, potencial, retroceso, suma_tam};
use crate::paso_evaluado::EvaluadoV;
use crate::paso_regex::PasoV;
use crate::repeticion::Repeticion;

verus! {

/// Steps where `$` stands only last, matched at most once.
pub open spec fn dolar_al_final(pasos: Seq<PasoV>) -> bool {
    forall|k: int|
        0 <= k < pasos.len() && (#[trigger] pasos[k]).caracter is Dolar ==> k == pasos.len() - 1
            && (pasos[k].repeticion matches Repeticion::Exacta(m, _) && m <= 1)
}

/// Matched steps none of which is `$`.
pub open spec fn pila_sin_dolar(pila: Seq<EvaluadoV>) -> bool {
    forall|k: int| 0 <= k < pila.len() ==> !((#[trigger] pila[k]).paso.caracter is Dolar)
}

/// A state from which the matcher does not read past the end of the line: done,
/// or within the line with `$` only last in the queue and never on the stack.
pub open spec fn estado_en_linea(linea: Seq<char>, st: Estado) -> bool {
    ||| st.cola.len() == 0
    ||| {
        &&& st.indice <= linea.len()
        &&& dolar_al_final(st.cola)
        &&& pila_sin_dolar(st.pila)
    }
}

/// On an ASCII line a unit other than `$` matches at most one byte, and only
/// within the line.
pub proof fn lema_unidad_en_linea(car: CaracterV, linea: Seq<char>, i: int)
    requires
        !(car is Dolar),
        vstd::utf8::is_ascii_chars(linea),
        0 <= i <= linea.len(),
    ensures
        coincide_en(car, linea, i) <= 1,
        coincide_en(car, linea, i) > 0 ==> i < linea.len(),
{
    lema_coincidencia_acotada(car, linea.subrange(i, linea.len() as int));
    let texto = linea.subrange(i, linea.len() as int);
    assert forall|k: int| 0 <= k < texto.len() implies '\0' <= #[trigger] texto[k] <= '\u{7f}' by {
        assert(texto[k] == linea[i + k]);
    }
}

/// Backtracking keeps a prefix of the stack, and puts in front of the queue the
/// steps of popped stacked steps.
pub proof fn lema_retroceso_forma(pila: Seq<EvaluadoV>, cola: Seq<PasoV>, acumulado: nat)
    requires
        pila_sin_dolar(pila),
        dolar_al_final(cola),
    ensures
        retroceso(pila, cola, acumulado) matches Some((t, p, c)) ==> {
            &&& pila_sin_dolar(p)
            &&& dolar_al_final(c)
            &&& t >= acumulado
        },
    decreases pila.len(),
{
    if pila.len() > 0 {
        let e = pila.last();
        assert(!(pila[pila.len() - 1].paso.caracter is Dolar));
        let resto = pila.drop_last();
        assert forall|k: int| 0 <= k < resto.len() implies !((#[trigger] resto[k]).paso.caracter is Dolar) by {
            assert(resto[k] == pila[k]);
        }
        if !e.back {
            let c2 = seq![e.paso] + cola;
            assert forall|k: int|
                0 <= k < c2.len() && (#[trigger] c2[k]).caracter is Dolar implies k == c2.len() - 1
                && (c2[k].repeticion matches Repeticion::Exacta(m, _) && m <= 1) by {
                assert(k > 0);
                assert(c2[k] == cola[k - 1]);
            }
            lema_retroceso_forma(resto, c2, acumulado + e.tam);
        }
    }
}

/// The queue with a failed step put back in front keeps `$` only last.
proof fn lema_frente(paso: PasoV, cola: Seq<PasoV>)
    requires
        !(paso.caracter is Dolar),
        dolar_al_final(cola),
    ensures
        dolar_al_final(seq![paso] + cola),
{
    let c2 = seq![paso] + cola;
    assert forall|k: int|
        0 <= k < c2.len() && (#[trigger] c2[k]).caracter is Dolar implies k == c2.len() - 1 && (
        c2[k].repeticion matches Repeticion::Exacta(m, _) && m <= 1) by {
        assert(k > 0);
        assert(c2[k] == cola[k - 1]);
    }
}

/// A stack with one more step other than `$` has no `$`.
proof fn lema_push_sin_dolar(pila: Seq<EvaluadoV>, e: EvaluadoV)
    requires
        pila_sin_dolar(pila),
        !(e.paso.caracter is Dolar),
    ensures
        pila_sin_dolar(pila.push(e)),
{
    let p2 = pila.push(e);
    assert forall|k: int| 0 <= k < p2.len() implies !((#[trigger] p2[k]).paso.caracter is Dolar) by {
        if k < pila.len() {
            assert(p2[k] == pila[k]);
        }
    }
}

/// A step other than `$` to match `n` more times stays within the line.
proof fn lema_exacta_en_linea(
    linea: Seq<char>,
    paso: PasoV,
    negacion: bool,
    n: nat,
    tam: nat,
    i: int,
    cola: Seq<PasoV>,
    pila: Seq<EvaluadoV>,
)
    requires
        !(paso.caracter is Dolar),
        vstd::utf8::is_ascii_chars(linea),
        0 <= i <= linea.len(),
        tam <= i,
        pila_sin_dolar(pila),
        dolar_al_final(cola),
    ensures
        !(exacta(linea, paso, negacion, n, tam, i, cola, pila) is Aborta),
        exacta(linea, paso, negacion, n, tam, i, cola, pila) matches Avance::Sigue(s)
            ==> estado_en_linea(linea, s),
    decreases n,
{
    lema_frente(paso, cola);
    if n == 0 {
        lema_push_sin_dolar(pila, EvaluadoV { paso, tam, back: false });
    } else {
        lema_unidad_en_linea(paso.caracter, linea, i);
        let a = coincide_en(paso.caracter, linea, i);
        if a == 0 {
            lema_retroceso_forma(pila, seq![paso] + cola, 0);
        } else {
            lema_exacta_en_linea(linea, paso, negacion, (n - 1) as nat, tam + a, i + a, cola, pila);
        }
    }
}

/// `$` as the last step, matched at most once, ends the match or backtracks.
proof fn lema_dolar_en_linea(
    linea: Seq<char>,
    paso: PasoV,
    negacion: bool,
    n: nat,
    i: int,
    pila: Seq<EvaluadoV>,
)
    requires
        paso.caracter is Dolar,
        n <= 1,
        paso.repeticion matches Repeticion::Exacta(m, _) && m <= 1,
        0 <= i <= linea.len(),
        pila_sin_dolar(pila),
    ensures
        !(exacta(linea, paso, negacion, n, 0, i, seq![], pila) is Aborta),
        exacta(linea, paso, negacion, n, 0, i, seq![], pila) matches Avance::Sigue(s)
            ==> estado_en_linea(linea, s),
{
    if n == 1 {
        let a = coincide_en(paso.caracter, linea, i);
        if a == 0 {
            let c2 = seq![paso] + Seq::<PasoV>::empty();
            assert forall|k: int|
                0 <= k < c2.len() && (#[trigger] c2[k]).caracter is Dolar implies k == c2.len() - 1
                && (c2[k].repeticion matches Repeticion::Exacta(m, _) && m <= 1) by {
                assert(k == 0);
            }
            lema_retroceso_forma(pila, c2, 0);
        } else {
            let siguiente = exacta(linea, paso, negacion, 0, a, i + a, seq![], pila);
            assert(!(siguiente is Aborta));
            assert(siguiente matches Avance::Sigue(s) ==> s.cola.len() == 0);
        }
    }
}

/// A starred unit other than `$` stays within the line.
proof fn lema_alguna_en_linea(
    linea: Seq<char>,
    paso: PasoV,
    negacion: bool,
    i: int,
    cola: Seq<PasoV>,
    pila: Seq<EvaluadoV>,
)
    requires
        !(paso.caracter is Dolar),
        vstd::utf8::is_ascii_chars(linea),
        0 <= i <= linea.len(),
        pila_sin_dolar(pila),
        dolar_al_final(cola),
    ensures
        !(alguna(linea, paso, negacion, i, cola, pila) is Aborta),
        alguna(linea, paso, negacion, i, cola, pila) matches Avance::Sigue(s) ==> estado_en_linea(
            linea,
            s,
        ),
    decreases linea.len() + 4 - i,
{
    lema_unidad_en_linea(paso.caracter, linea, i);
    let a = coincide_en(paso.caracter, linea, i);
    if a != 0 && !negacion {
        let e = EvaluadoV { paso, tam: a, back: true };
        lema_push_sin_dolar(pila, e);
        lema_alguna_en_linea(linea, paso, negacion, i + a, cola, pila.push(e));
    }
}

/// A unit other than `$` under a range stays within the line.
proof fn lema_rango_en_linea(linea: Seq<char>, paso: PasoV, cuenta: nat, i: int, pila: Seq<EvaluadoV>)
    requires
        !(paso.caracter is Dolar),
        vstd::utf8::is_ascii_chars(linea),
        0 <= i <= linea.len(),
        pila_sin_dolar(pila),
    ensures
        rango(linea, paso, cuenta, i, pila) matches Some((c, i2, p2)) && i2 <= linea.len()
            && pila_sin_dolar(p2),
    decreases linea.len() + 4 - i,
{
    lema_unidad_en_linea(paso.caracter, linea, i);
    let a = coincide_en(paso.caracter, linea, i);
    if a != 0 {
        let e = EvaluadoV { paso, tam: a, back: true };
        lema_push_sin_dolar(pila, e);
        lema_rango_en_linea(linea, paso, cuenta + 1, i + a, pila.push(e));
    }
}

/// One round from a state within the line does not panic, and goes on from a
/// state within the line.
proof fn lema_avanzar_en_linea(linea: Seq<char>, st: Estado)
    requires
        vstd::utf8::is_ascii_chars(linea),
        estado_valido(st),
        estado_en_linea(linea, st),
    ensures
        !(avanzar(linea, st) is Aborta),
        avanzar(linea, st) matches Avance::Sigue(s) ==> estado_en_linea(linea, s),
{
    if st.cola.len() > 0 {
        let paso = st.cola[0];
        let resto = st.cola.drop_first();
        let i = st.indice;
        assert(0 <= suma_tam(st.pila));
        assert(dolar_al_final(resto)) by {
            assert forall|k: int|
                0 <= k < resto.len() && (#[trigger] resto[k]).caracter is Dolar implies k
                == resto.len() - 1 && (resto[k].repeticion matches Repeticion::Exacta(m, _) && m
                <= 1) by {
                assert(resto[k] == st.cola[k + 1]);
            }
        }
        if paso.caracter is Dolar {
            assert(st.cola.len() == 1);
            assert(resto =~= Seq::<PasoV>::empty());
            let m = paso.repeticion->Exacta_0;
            let neg = paso.repeticion->Exacta_1;
            lema_dolar_en_linea(linea, paso, neg, m as nat, i, st.pila);
        } else {
            match paso.repeticion {
                Repeticion::Exacta(n, neg) => {
                    lema_exacta_en_linea(linea, paso, neg, n as nat, 0, i, resto, st.pila);
                },
                Repeticion::Alguna(neg) => {
                    lema_alguna_en_linea(linea, paso, neg, i, resto, st.pila);
                },
                Repeticion::Rango { min, max } => {
                    lema_rango_en_linea(linea, paso, 0, i, st.pila);
                },
            }
        }
    }
}

/// From a state within the line the matcher answers without panicking.
proof fn lema_ejecutar_en_linea(linea: Seq<char>, st: Estado)
    requires
        vstd::utf8::is_ascii_chars(linea),
        estado_valido(st),
        estado_en_linea(linea, st),
    ensures
        ejecutar(linea, st) is Some,
    decreases potencial(linea, st), st.cola.len(),
{
    lema_avanzar_en_linea(linea, st);
    lema_avanzar(linea, st);
    match avanzar(linea, st) {
        Avance::Sigue(s) => {
            lema_ejecutar_en_linea(linea, s);
        },
        _ => {},
    }
}

/// Where `$` stands only as the last step and is matched at most once, matching
/// an ASCII line never panics: the matcher always answers.
pub proof fn ley_dolar_al_final(pasos: Seq<PasoV>, linea: Seq<char>)
    requires
        dolar_al_final(pasos),
        vstd::utf8::is_ascii_chars(linea),
    ensures
        resultado(linea, pasos) is Some,
{
    let st = estado_inicial(pasos);
    assert(suma_tam(st.pila) == 0);
    lema_ejecutar_en_linea(linea, st);
}

/// Whether an alternative that reads into steps has `$` only last, matched at
/// most once.
pub open spec fn alternativa_al_final(parte: Seq<char>) -> bool {
    analizar_expresion(parte) matches Analisis::Listo { pasos, .. } ==> dolar_al_final(pasos)
}

/// Whether every alternative of an expression that reads into steps has `$` only
/// last, matched at most once.
pub open spec fn alternativas_al_final(e: Seq<char>) -> bool {
    forall|i: int| 0 <= i < partes(e).len() ==> alternativa_al_final(#[trigger] partes(e)[i])
}

/// The alternatives of an expression: the first, then those of the rest.
pub proof fn lema_alternativas_al_final(s: Seq<char>)
    ensures
        primer_barra(s) >= s.len() ==> alternativas_al_final(s) == alternativa_al_final(s),
        primer_barra(s) < s.len() ==> alternativas_al_final(s) == (alternativa_al_final(
            s.take(primer_barra(s) as int),
        ) && alternativas_al_final(s.skip(primer_barra(s) as int + 1))),
{
    lema_primer_barra(s);
    let k = primer_barra(s);
    if k >= s.len() {
        assert(partes(s) == seq![s]);
        if alternativa_al_final(s) {
            assert forall|i: int| 0 <= i < partes(s).len() implies alternativa_al_final(#[trigger] partes(s)[i]) by {
                assert(i == 0);
            }
        }
        if alternativas_al_final(s) {
            assert(alternativa_al_final(partes(s)[0]));
        }
    } else {
        let resto = s.skip(k as int + 1);
        assert(partes(s) == seq![s.take(k as int)] + partes(resto));
        if alternativas_al_final(s) {
            assert(alternativa_al_final(partes(s)[0]));
            assert forall|i: int| 0 <= i < partes(resto).len() implies alternativa_al_final(#[trigger] partes(resto)[i]) by {
                assert(partes(s)[i + 1] == partes(resto)[i]);
            }
        }
        if alternativa_al_final(s.take(k as int)) && alternativas_al_final(resto) {
            assert forall|i: int| 0 <= i < partes(s).len() implies alternativa_al_final(#[trigger] partes(s)[i]) by {
                if i > 0 {
                    assert(partes(s)[i] == partes(resto)[i - 1]);
                }
            }
        }
    }
}

proof fn lema_evaluar_alternativas_responde(s: Seq<char>, linea: Seq<char>)
    requires
        alternativas_al_final(s),
    ensures
        evaluar_alternativas(s, linea) is Some,
    decreases s.len(),
{
    lema_primer_barra(s);
    lema_alternativas_al_final(s);
    let k = primer_barra(s);
    crate::clase::analisis::lema_analizar_no_aborta(
        crate::analisis::pasos_iniciales(s.take(k as int)),
        s.take(k as int),
    );
    match analizar_expresion(s.take(k as int)) {
        Analisis::Listo { pasos, .. } => {
            if k >= s.len() {
                assert(s.take(k as int) =~= s);
            }
            assert(alternativa_al_final(s.take(k as int)));
            assert(dolar_al_final(pasos));
            if vstd::utf8::is_ascii_chars(linea) {
                ley_dolar_al_final(pasos, linea);
                if k < s.len() {
                    lema_evaluar_alternativas_responde(s.skip(k as int + 1), linea);
                }
            }
        },
        _ => {},
    }
}

proof fn lema_revisar_responde(e: Seq<char>, llaves: int, corchetes: int)
    requires
        0 <= llaves,
        0 <= corchetes,
        llaves + e.len() <= i32::MAX,
        corchetes + e.len() <= i32::MAX,
    ensures
        !(revisar(e, llaves, corchetes) is Aborta),
    decreases e.len(),
{
    if e.len() > 0 {
        let r = e.drop_first();
        let c = e[0];
        if c == '{' {
            lema_revisar_responde(r, llaves + 1, corchetes);
        } else if c == '}' {
            if llaves > 0 {
                lema_revisar_responde(r, llaves - 1, corchetes);
            }
        } else if c == '[' {
            lema_revisar_responde(r, llaves, corchetes + 1);
        } else if c == ']' {
            if corchetes > 0 {
                lema_revisar_responde(r, llaves, corchetes - 1);
            }
        } else {
            lema_revisar_responde(r, llaves, corchetes);
        }
    }
}

/// An expression shorter than `i32::MAX` whose alternatives each have `$` only
/// last (matched at most once) is checked and matched against any line without
/// panicking: this matcher's `Regex::es_valida_general` answers.
pub proof fn ley_expresion_responde(e: Seq<char>, linea: Seq<char>)
    requires
        e.len() < i32::MAX,
        alternativas_al_final(e),
    ensures
        valida_general(e, linea) is Some,
{
    lema_revisar_responde(e, 0, 0);
    lema_evaluar_alternativas_responde(e, linea);
}

} // verus!
