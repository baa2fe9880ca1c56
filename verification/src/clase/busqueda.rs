//! What this matcher finds for steps that each match one character once, for
//! plain patterns, a trailing `*`, bracket expressions and POSIX classes: the same
//! as the other matcher (see `crate::busqueda`), proved over this matcher's
//! reading and rounds.
use vstd::prelude::*;
use crate::analisis::{
    LecturaCorchete, clase_nombrada, comodin_inicial, contenido_corchete, leer_corchete,
    paso_unitario, pasos_iniciales, primer_barra,
};
use crate::busqueda::{
    Remate, cierre, coincide_prefijo, comodines, de_lista, de_un_caracter, dolar_final, encaja,
    encaja_hasta, encuentra, es_simple, estado_busqueda, expresion_clase, expresion_corchete,
    expresion_simple, hay_en_clase, hay_en_corchete, inicio, lista_simple, neutro, paso_dolar,
    pasos_de, patron_simple, remata, remate_de, remate_repetido, remate_valido, sin_barra,
    sin_delimitadores, unidad, unidades, unidades_de_un_caracter, lema_coincide_unidad,
    lema_corchete_sin_barra, lema_encaja_en_linea, lema_encaja_hasta_paso, lema_encuentra_clase,
    lema_estado_busqueda_valido, lema_expresion_simple_neutra, lema_leer_lista,
    lema_nombre_de_lista, lema_primer_barra_sin_barra, lema_retroceso_busqueda,
    lema_sin_barra_concat, lema_unidades_simples,
};
use crate::caracter::{CaracterV, admite};
use crate::clase::analisis::{Analisis, Revision, analizar, analizar_expresion, fabricar_paso, revisar};
use crate::clase::errors::Error;
use crate::clase::motor::{
    alguna, avanzar, ejecutar, evaluar_alternativas, exacta, resultado, valida_general,
};
use crate::clase_char::ClaseCharV;
use crate::motor::{Avance, Estado, coincide_en, estado_inicial, estado_valido, suma_tam};
use crate::paso_evaluado::EvaluadoV;
use crate::paso_regex::PasoV;

verus! {

/// Reading a plain pattern adds one step per character.
proof fn lema_analizar_simple(pasos: Seq<PasoV>, p: Seq<char>, r: Seq<char>)
    requires
        patron_simple(p),
    ensures
        analizar(pasos, p + r) == analizar(pasos + pasos_de(unidades(p)), r),
    decreases p.len(),
{
    if p.len() == 0 {
        assert(p + r =~= r);
        assert(pasos + pasos_de(unidades(p)) =~= pasos);
    } else {
        let c = p[0];
        let d = p.drop_first();
        assert(es_simple(p[0]));
        assert((p + r)[0] == c);
        assert((p + r).drop_first() =~= d + r);
        let u = paso_unitario(unidad(c));
        assert forall|t: int| 0 <= t < d.len() implies es_simple(#[trigger] d[t]) by {
            assert(d[t] == p[t + 1]);
        }
        assert(fabricar_paso(c, pasos, d + r) == (Analisis::Listo { pasos: pasos.push(u), resto: d + r }));
        assert(analizar(pasos, p + r) == analizar(pasos.push(u), d + r));
        lema_analizar_simple(pasos.push(u), d, r);
        assert(pasos.push(u) + pasos_de(unidades(d)) =~= pasos + pasos_de(unidades(p)));
    }
}

/// Reading `$` at the end adds its step; reading nothing adds nothing.
proof fn lema_analizar_final(pasos: Seq<PasoV>, fin: bool)
    ensures
        analizar(pasos, dolar_final(fin)) == (Analisis::Listo {
            pasos: pasos + cierre(remate_de(fin)),
            resto: seq![],
        }),
{
    if fin {
        let d = dolar_final(fin);
        assert(d[0] == '$');
        assert(d.drop_first() =~= seq![]);
        assert(fabricar_paso('$', pasos, seq![]) == (Analisis::Listo {
            pasos: pasos.push(paso_dolar()),
            resto: seq![],
        }));
        assert(analizar(pasos, d) == analizar(pasos.push(paso_dolar()), seq![]));
        assert(pasos.push(paso_dolar()) =~= pasos + cierre(remate_de(fin)));
    } else {
        assert(pasos + cierre(remate_de(fin)) =~= pasos);
    }
}

/// Reading a plain character and then `*`, `?` or `+` adds the character's step
/// with that repetition.
proof fn lema_analizar_repetido(pasos: Seq<PasoV>, c: char, rep: char)
    requires
        es_simple(c),
        rep == '*' || rep == '?' || rep == '+',
    ensures
        analizar(pasos, seq![c, rep]) == (Analisis::Listo {
            pasos: pasos + cierre(remate_repetido(c, rep)),
            resto: seq![],
        }),
{
    let e = seq![c, rep];
    let u = paso_unitario(unidad(c));
    let p1 = pasos.push(u);
    assert(e[0] == c);
    assert(e.drop_first() =~= seq![rep]);
    assert(fabricar_paso(c, pasos, seq![rep]) == (Analisis::Listo { pasos: p1, resto: seq![rep] }));
    assert(analizar(pasos, e) == analizar(p1, seq![rep]));
    let r1 = seq![rep];
    assert(r1[0] == rep);
    assert(r1.drop_first() =~= Seq::<char>::empty());
    let ultimo = cierre(remate_repetido(c, rep))[0];
    assert(!crate::analisis::no_hay_anterior(p1.last()));
    assert(leer_corchete(Seq::<char>::empty(), 1, false, false, seq![]).aux =~= Seq::<char>::empty());
    assert(crate::analisis::con_repeticion(p1, ultimo.repeticion) =~= pasos + cierre(
        remate_repetido(c, rep),
    ));
    assert(fabricar_paso(rep, p1, Seq::<char>::empty()) == (Analisis::Listo {
        pasos: pasos + cierre(remate_repetido(c, rep)),
        resto: seq![],
    }));
    assert(analizar(p1, r1) == analizar(pasos + cierre(remate_repetido(c, rep)), seq![]));
}

/// Characters without delimiters leave the check of how an expression is written
/// where it was.
proof fn lema_revisar_neutra(e: Seq<char>, r: Seq<char>, llaves: int, corchetes: int)
    requires
        sin_delimitadores(e),
    ensures
        revisar(e + r, llaves, corchetes) == revisar(r, llaves, corchetes),
    decreases e.len(),
{
    if e.len() == 0 {
        assert(e + r =~= r);
    } else {
        let d = e.drop_first();
        assert(neutro(e[0]));
        assert((e + r)[0] == e[0]);
        assert((e + r).drop_first() =~= d + r);
        assert forall|t: int| 0 <= t < d.len() implies neutro(#[trigger] d[t]) by {
            assert(d[t] == e[t + 1]);
        }
        lema_revisar_neutra(d, r, llaves, corchetes);
    }
}

/// On an ASCII line the leading `.*` takes all the rest of the line, one byte per
/// match.
proof fn lema_alguna_comodin(linea: Seq<char>, i: int, cola: Seq<PasoV>, pila: Seq<EvaluadoV>)
    requires
        vstd::utf8::is_ascii_chars(linea),
        0 <= i <= linea.len(),
    ensures
        alguna(linea, comodin_inicial(), false, i, cola, pila) == Avance::Sigue(
            Estado {
                cola,
                pila: pila + comodines((linea.len() - i) as nat),
                indice: linea.len() as int,
            },
        ),
    decreases linea.len() - i,
{
    lema_coincide_unidad(CaracterV::Comodin, linea, i);
    if i == linea.len() {
        assert(pila + comodines(0) =~= pila);
    } else {
        let e = EvaluadoV { paso: comodin_inicial(), tam: 1, back: true };
        lema_alguna_comodin(linea, i + 1, cola, pila.push(e));
        assert(pila.push(e) + comodines((linea.len() - i - 1) as nat) =~= pila + comodines(
            (linea.len() - i) as nat,
        ));
    }
}

/// Pushing a matched step adds its bytes.
proof fn lema_suma_tam_push(pila: Seq<EvaluadoV>, e: EvaluadoV)
    ensures
        suma_tam(pila.push(e)) == suma_tam(pila) + e.tam,
{
    assert(pila.push(e).drop_last() =~= pila);
}

/// On an ASCII line a starred unit of one character stops within the line and
/// keeps the stacked steps within the position.
proof fn lema_alguna_termina(
    linea: Seq<char>,
    paso: PasoV,
    i: int,
    cola: Seq<PasoV>,
    pila: Seq<EvaluadoV>,
)
    requires
        vstd::utf8::is_ascii_chars(linea),
        de_un_caracter(paso.caracter),
        0 <= i <= linea.len(),
        suma_tam(pila) <= i,
    ensures
        alguna(linea, paso, false, i, cola, pila) matches Avance::Sigue(s) && s.cola == cola
            && estado_valido(s),
    decreases linea.len() - i,
{
    lema_coincide_unidad(paso.caracter, linea, i);
    if i < linea.len() && admite(paso.caracter, linea[i]) {
        let e = EvaluadoV { paso, tam: 1, back: true };
        lema_suma_tam_push(pila, e);
        lema_alguna_termina(linea, paso, i + 1, cola, pila.push(e));
    }
}

/// From the search state the matcher answers whether the units fit from a
/// position at `j` or before.
proof fn lema_busqueda(us: Seq<CaracterV>, remate: Remate, linea: Seq<char>, j: nat, m: nat)
    requires
        unidades_de_un_caracter(us),
        remate_valido(remate),
        !(remate is Opcional) && !(remate is Mas),
        vstd::utf8::is_ascii_chars(linea),
        m <= us.len(),
        coincide_prefijo(us, linea, j as int, m as int),
    ensures
        ejecutar(linea, estado_busqueda(us, remate, j, m)) == Some(
            encaja_hasta(us, linea, j as int, remate),
        ),
    decreases j, us.len() - m,
{
    let st = estado_busqueda(us, remate, j, m);
    lema_estado_busqueda_valido(us, remate, j, m);
    let i = (j + m) as int;
    let texto = linea.subrange(i, linea.len() as int);
    let completo = m == us.len();
    if completo {
        assert(st.cola =~= cierre(remate));
    }
    if completo && remata(remate, linea, i) {
        // The units fit at `j` and what follows them holds.
        assert(encaja(us, linea, j as int, remate));
        match remate {
            Remate::Nada => {
                assert(avanzar(linea, st) == Avance::Termina(true));
            },
            Remate::Dolar => {
                let paso = paso_dolar();
                assert(st.cola.drop_first() =~= Seq::<PasoV>::empty());
                assert(texto.len() == 0);
                assert(coincide_en(paso.caracter, linea, i) == 1);
                let e = EvaluadoV { paso, tam: 1, back: false };
                let s2 = Estado { cola: seq![], pila: st.pila.push(e), indice: i + 1 };
                assert(exacta(linea, paso, false, 0, 1, i + 1, seq![], st.pila) == Avance::Sigue(s2));
                assert(avanzar(linea, st) == Avance::Sigue(s2));
                lema_suma_tam_push(st.pila, e);
                assert(estado_valido(s2));
                assert(avanzar(linea, s2) == Avance::Termina(true));
                assert(ejecutar(linea, s2) == Some(true));
            },
            Remate::Estrella(u) => {
                let paso = st.cola[0];
                assert(st.cola.drop_first() =~= Seq::<PasoV>::empty());
                lema_alguna_termina(linea, paso, i, seq![], st.pila);
                let s2 = alguna(linea, paso, false, i, seq![], st.pila)->Sigue_0;
                assert(avanzar(linea, st) == Avance::Sigue(s2));
                assert(estado_valido(s2));
                assert(avanzar(linea, s2) == Avance::Termina(true));
                assert(ejecutar(linea, s2) == Some(true));
            },
            _ => {},
        }
        assert(ejecutar(linea, st) == Some(true));
    } else if !completo && i < linea.len() && admite(us[m as int], linea[i]) {
        // The next unit matches: one more unit fits.
        let paso = st.cola[0];
        let resto = st.cola.drop_first();
        assert(paso == paso_unitario(us[m as int]));
        assert(resto =~= pasos_de(us).skip(m + 1int) + cierre(remate));
        lema_coincide_unidad(us[m as int], linea, i);
        let e = EvaluadoV { paso, tam: 1, back: false };
        let s2 = estado_busqueda(us, remate, j, m + 1);
        assert(st.pila.push(e) =~= s2.pila);
        assert(exacta(linea, paso, false, 0, 1, i + 1, resto, st.pila) == Avance::Sigue(s2));
        assert(avanzar(linea, st) == Avance::Sigue(s2));
        assert forall|t: int| 0 <= t < m + 1 implies admite(#[trigger] us[t], linea[j + t]) by {
            if t < m {
                assert(admite(us[t], linea[j + t]));
            }
        }
        lema_busqueda(us, remate, linea, j, m + 1);
        lema_estado_busqueda_valido(us, remate, j, m + 1);
        assert(ejecutar(linea, st) == ejecutar(linea, s2));
    } else {
        // Nothing fits at `j`: the matcher backtracks to `j - 1`.
        let paso = st.cola[0];
        let resto = st.cola.drop_first();
        assert(seq![paso] + resto =~= st.cola);
        if !completo {
            assert(paso == paso_unitario(us[m as int]));
            lema_coincide_unidad(us[m as int], linea, i);
        } else {
            assert(paso == paso_dolar());
            assert(texto.len() > 0);
        }
        assert(coincide_en(paso.caracter, linea, i) == 0);
        lema_retroceso_busqueda(us, remate, j, m, 0);
        assert(!encaja(us, linea, j as int, remate)) by {
            if encaja(us, linea, j as int, remate) && !completo {
                assert(admite(us[m as int], linea[(j + m) as int]));
            }
        }
        lema_encaja_hasta_paso(us, linea, j, remate);
        if j > 0 {
            let s2 = estado_busqueda(us, remate, (j - 1) as nat, 0);
            assert(s2.pila =~= comodines((j - 1) as nat));
            assert(s2.cola =~= pasos_de(us) + cierre(remate));
            assert(avanzar(linea, st) == Avance::Sigue(s2));
            lema_busqueda(us, remate, linea, (j - 1) as nat, 0);
            lema_estado_busqueda_valido(us, remate, (j - 1) as nat, 0);
            assert(ejecutar(linea, st) == ejecutar(linea, s2));
        } else {
            assert(avanzar(linea, st) == Avance::Termina(false));
            assert(ejecutar(linea, st) == Some(false));
        }
    }
}

/// Steps that each match one character once (literals, `.`, classes), behind the
/// leading `.*` or after `^`, and followed by nothing, by `$`, or by one more unit
/// repeated by `*`, `?` or `+`, answer on an ASCII line whether a stretch of it
/// holds, one by one, characters that the units accept (anywhere in the line, or
/// at its start after `^`), followed by the end of the line for `$`, and by a
/// character that the repeated unit accepts for `+`. This is what
/// `Regex::es_valida` answers for such steps.
pub proof fn ley_unidades(us: Seq<CaracterV>, ancla: bool, remate: Remate, linea: Seq<char>)
    requires
        unidades_de_un_caracter(us),
        remate_valido(remate),
        !(remate is Opcional) && !(remate is Mas),
        vstd::utf8::is_ascii_chars(linea),
    ensures
        resultado(linea, inicio(ancla) + pasos_de(us) + cierre(remate)) == Some(
            encuentra(us, linea, ancla, remate),
        ),
{
    let n = linea.len();
    let st = estado_inicial(inicio(ancla) + pasos_de(us) + cierre(remate));
    assert(suma_tam(st.pila) == 0);
    if ancla {
        let s0 = estado_busqueda(us, remate, 0, 0);
        assert(s0.pila =~= st.pila);
        assert(s0.cola =~= st.cola);
        lema_busqueda(us, remate, linea, 0, 0);
        assert(encaja_hasta(us, linea, 0, remate) == encaja(us, linea, 0, remate)) by {
            if encaja_hasta(us, linea, 0, remate) {
                let x = choose|x: int| 0 <= x <= 0 && encaja(us, linea, x, remate);
                assert(x == 0);
            }
        }
    } else {
        lema_alguna_comodin(linea, 0, st.cola.drop_first(), seq![]);
        assert(seq![] + comodines(n) =~= comodines(n));
        let s2 = estado_busqueda(us, remate, n, 0);
        assert(s2.pila =~= comodines(n));
        assert(s2.cola =~= st.cola.drop_first());
        assert(st.cola[0] == comodin_inicial());
        assert(avanzar(linea, st) == Avance::Sigue(s2));
        lema_busqueda(us, remate, linea, n, 0);
        lema_estado_busqueda_valido(us, remate, n, 0);
        assert(resultado(linea, inicio(ancla) + pasos_de(us) + cierre(remate)) == ejecutar(linea, s2));
        lema_encaja_en_linea(us, linea, remate);
    }
}

/// How a plain expression is checked and read: well written, one alternative,
/// and its steps are those of `^` or the leading `.*`, then the pattern's, then
/// what the tail `cola` adds.
proof fn lema_expresion_plana(e: Seq<char>, p: Seq<char>, ancla: bool, cola: Seq<char>, pasos_cola: Seq<PasoV>)
    requires
        patron_simple(p),
        e == (if ancla {
            seq!['^']
        } else {
            seq![]
        }) + p + cola,
        sin_delimitadores(e),
        sin_barra(e),
        cola.len() > 0 ==> cola[0] != '^',
        forall|pasos: Seq<PasoV>| #[trigger] analizar(pasos, cola) == (Analisis::Listo {
            pasos: pasos + pasos_cola,
            resto: seq![],
        }),
    ensures
        revisar(e, 0, 0) == Revision::Correcta,
        primer_barra(e) == e.len(),
        analizar_expresion(e) == (Analisis::Listo {
            pasos: inicio(ancla) + pasos_de(unidades(p)) + pasos_cola,
            resto: seq![],
        }),
{
    let cuerpo = p + cola;
    lema_revisar_neutra(e, seq![], 0, 0);
    assert(e + Seq::<char>::empty() =~= e);
    lema_primer_barra_sin_barra(e);
    lema_analizar_simple(inicio(ancla), p, cola);
    assert(analizar(inicio(ancla) + pasos_de(unidades(p)), cola) == (Analisis::Listo {
        pasos: inicio(ancla) + pasos_de(unidades(p)) + pasos_cola,
        resto: seq![],
    }));
    if ancla {
        assert(e[0] == '^');
        assert(e.drop_first() =~= cuerpo);
        assert(pasos_iniciales(e) == Seq::<PasoV>::empty());
        assert(analizar(seq![], e) == analizar(seq![], cuerpo));
    } else {
        assert(e =~= cuerpo);
        if e.len() > 0 {
            if p.len() > 0 {
                assert(e[0] == p[0]);
                assert(es_simple(p[0]));
            } else {
                assert(e[0] == cola[0]);
            }
        }
        assert(pasos_iniciales(e) == seq![comodin_inicial()]);
    }
}

/// A plain pattern (characters that stand for themselves and `.`), with or
/// without `^` in front and `$` behind, finds in an ASCII line what grep
/// promises: a stretch of the line whose characters the pattern's characters
/// accept one by one (`.` any character, the others themselves); anywhere in the
/// line, or at its start after `^`; reaching the end of the line with `$`. This
/// holds of the expression read into steps (`Regex::new`) and matched
/// (`Regex::es_valida`), and of the whole check (`Regex::es_valida_general`).
pub proof fn ley_busqueda(p: Seq<char>, ancla: bool, fin: bool, linea: Seq<char>)
    requires
        patron_simple(p),
        vstd::utf8::is_ascii_chars(linea),
    ensures
        analizar_expresion(expresion_simple(p, ancla, fin)) == (Analisis::Listo {
            pasos: inicio(ancla) + pasos_de(unidades(p)) + cierre(remate_de(fin)),
            resto: seq![],
        }),
        resultado(linea, inicio(ancla) + pasos_de(unidades(p)) + cierre(remate_de(fin))) == Some(
            encuentra(unidades(p), linea, ancla, remate_de(fin)),
        ),
        valida_general(expresion_simple(p, ancla, fin), linea) == Some(
            Ok::<bool, Error>(encuentra(unidades(p), linea, ancla, remate_de(fin))),
        ),
{
    let e = expresion_simple(p, ancla, fin);
    lema_expresion_simple_neutra(p, ancla, fin);
    assert forall|pasos: Seq<PasoV>| #[trigger] analizar(pasos, dolar_final(fin)) == (Analisis::Listo {
        pasos: pasos + cierre(remate_de(fin)),
        resto: seq![],
    }) by {
        lema_analizar_final(pasos, fin);
    }
    if fin {
        assert(dolar_final(fin)[0] == '$');
    }
    lema_expresion_plana(e, p, ancla, dolar_final(fin), cierre(remate_de(fin)));
    assert(e.take(e.len() as int) =~= e);
    lema_unidades_simples(p);
    ley_unidades(unidades(p), ancla, remate_de(fin), linea);
    assert(evaluar_alternativas(e, linea) == Some(
        Ok::<bool, Error>(encuentra(unidades(p), linea, ancla, remate_de(fin))),
    ));
}

/// A `c*` at the end of a plain pattern can be left out (where `c` is a plain
/// character, and the pattern stands on its own or after `^`).
pub proof fn ley_estrella_final(p: Seq<char>, c: char, ancla: bool, linea: Seq<char>)
    requires
        patron_simple(p),
        es_simple(c),
        vstd::utf8::is_ascii_chars(linea),
    ensures
        valida_general(expresion_simple(p, ancla, false) + seq![c, '*'], linea) == valida_general(
            expresion_simple(p, ancla, false),
            linea,
        ),
{
    ley_busqueda(p, ancla, false, linea);
    lema_expresion_simple_neutra(p, ancla, false);
    lema_unidades_simples(p);
    let base = expresion_simple(p, ancla, false);
    let a: Seq<char> = if ancla {
        seq!['^']
    } else {
        seq![]
    };
    assert(base =~= a + p);
    let rep = '*';
    let e = base + seq![c, rep];
    let cola = seq![c, rep];
    assert(e =~= a + p + cola);
    assert forall|t: int| 0 <= t < e.len() implies neutro(#[trigger] e[t]) && e[t] != '|' by {
        if t < base.len() {
            assert(e[t] == base[t]);
            assert(neutro(base[t]));
        } else if t == base.len() {
            assert(e[t] == c);
            assert(es_simple(c));
        } else {
            assert(e[t] == rep);
        }
    }
    assert(cola[0] == c);
    assert forall|pasos: Seq<PasoV>| #[trigger] analizar(pasos, cola) == (Analisis::Listo {
        pasos: pasos + cierre(remate_repetido(c, rep)),
        resto: seq![],
    }) by {
        lema_analizar_repetido(pasos, c, rep);
    }
    lema_expresion_plana(e, p, ancla, cola, cierre(remate_repetido(c, rep)));
    assert(e.take(e.len() as int) =~= e);
    ley_unidades(unidades(p), ancla, remate_repetido(c, rep), linea);
    assert(evaluar_alternativas(e, linea) == Some(
        Ok::<bool, Error>(encuentra(unidades(p), linea, ancla, remate_repetido(c, rep))),
    ));
    assert(encuentra(unidades(p), linea, ancla, Remate::Estrella(unidad(c))) == encuentra(
        unidades(p),
        linea,
        ancla,
        Remate::Nada,
    )) by {
        if !ancla {
            if exists|j: int| encaja(unidades(p), linea, j, Remate::Estrella(unidad(c))) {
                let j = choose|j: int| encaja(unidades(p), linea, j, Remate::Estrella(unidad(c)));
                assert(encaja(unidades(p), linea, j, Remate::Nada));
            }
            if exists|j: int| encaja(unidades(p), linea, j, Remate::Nada) {
                let j = choose|j: int| encaja(unidades(p), linea, j, Remate::Nada);
                assert(encaja(unidades(p), linea, j, Remate::Estrella(unidad(c))));
            }
        }
    }
}

/// A bracket expression `[...]` whose list holds characters kept as they are
/// (ranges `a-z` included) matches an ASCII line exactly when some character of
/// the line is in the set that the list stands for. (In this matcher `[^...]`
/// negates the step's repetition instead: see `Regex::es_valida`.)
pub proof fn ley_corchete(l: Seq<char>, linea: Seq<char>)
    requires
        lista_simple(l),
        vstd::utf8::is_ascii_chars(linea),
    ensures
        analizar_expresion(expresion_corchete(l, false)) == (Analisis::Listo {
            pasos: seq![
                comodin_inicial(),
                paso_unitario(CaracterV::Serie(ClaseCharV::Simple(contenido_corchete(l), false))),
            ],
            resto: seq![],
        }),
        valida_general(expresion_corchete(l, false), linea) == Some(
            Ok::<bool, Error>(hay_en_corchete(l, false, linea)),
        ),
{
    let negado = false;
    let e = expresion_corchete(l, negado);
    let interior = l + seq![']'];
    assert(e =~= seq!['['] + interior);
    assert(e[0] == '[');
    assert(e.drop_first() =~= interior);
    let clase = ClaseCharV::Simple(contenido_corchete(l), negado);
    let paso = paso_unitario(CaracterV::Serie(clase));
    // How it is written.
    assert forall|t: int| 0 <= t < l.len() implies neutro(#[trigger] l[t]) by {
        assert(de_lista(l[t]));
    }
    lema_revisar_neutra(l, seq![']'], 0, 1);
    let cierre_corchete = seq![']'];
    assert(cierre_corchete[0] == ']');
    assert(cierre_corchete.drop_first() =~= Seq::<char>::empty());
    assert(revisar(Seq::<char>::empty(), 0, 0) == Revision::Correcta);
    assert(revisar(cierre_corchete, 0, 1) == Revision::Correcta);
    assert(revisar(interior, 0, 1) == Revision::Correcta);
    assert(revisar(e, 0, 0) == Revision::Correcta);
    lema_corchete_sin_barra(l, negado);
    lema_primer_barra_sin_barra(e);
    assert(e.take(e.len() as int) =~= e);
    // How it is read.
    lema_leer_lista(l, cierre_corchete, 1, false, negado, seq![]);
    assert(Seq::<char>::empty() + l =~= l);
    assert(leer_corchete(cierre_corchete, 1, false, negado, l) == (LecturaCorchete {
        aux: l,
        hay_clase: false,
        negado,
        resto: seq![],
    }));
    assert(leer_corchete(interior, 1, false, false, seq![]) == (LecturaCorchete {
        aux: l,
        hay_clase: false,
        negado,
        resto: seq![],
    }));
    assert(pasos_iniciales(e) == seq![comodin_inicial()]);
    assert(seq![comodin_inicial()].push(paso) =~= seq![comodin_inicial(), paso]);
    assert(analizar(seq![comodin_inicial()], e) == analizar(seq![comodin_inicial(), paso], seq![]));
    // What it matches.
    let us = seq![CaracterV::Serie(clase)];
    assert(unidades_de_un_caracter(us));
    assert(inicio(false) + pasos_de(us) + cierre(Remate::Nada) =~= seq![comodin_inicial(), paso]);
    ley_unidades(us, false, Remate::Nada, linea);
    lema_encuentra_clase(clase, linea);
    assert(evaluar_alternativas(e, linea) == Some(
        Ok::<bool, Error>(hay_en_corchete(l, negado, linea)),
    ));
}

/// A POSIX class expression `[[:name:]]` (`alpha`, `alnum`, `digit`, `lower`,
/// `upper`, `space`, `punct`) matches an ASCII line exactly when some character of
/// the line belongs to the class.
pub proof fn ley_clase(nombre: Seq<char>, linea: Seq<char>)
    requires
        clase_nombrada(nombre, false) is Some,
        vstd::utf8::is_ascii_chars(linea),
    ensures
        analizar_expresion(expresion_clase(nombre, false)) == (Analisis::Listo {
            pasos: seq![
                comodin_inicial(),
                paso_unitario(CaracterV::Serie(clase_nombrada(nombre, false).unwrap())),
            ],
            resto: seq![],
        }),
        valida_general(expresion_clase(nombre, false), linea) == Some(
            Ok::<bool, Error>(hay_en_clase(clase_nombrada(nombre, false).unwrap(), linea)),
        ),
{
    let negado = false;
    let clase = clase_nombrada(nombre, negado).unwrap();
    let paso = paso_unitario(CaracterV::Serie(clase));
    let e = expresion_clase(nombre, negado);
    let n: Seq<char> = if negado {
        seq!['^']
    } else {
        seq![]
    };
    let fin2 = seq![']', ']'];
    let fin1 = seq![']'];
    let cola_nombre = seq![':'] + fin2;
    let b = seq![':'] + nombre + cola_nombre;
    let x = seq!['['] + b;
    let interior = n + x;
    assert(e =~= seq!['['] + interior);
    assert(e[0] == '[');
    assert(e.drop_first() =~= interior);
    lema_nombre_de_lista(nombre, negado);
    // How it is written.
    let marco = seq![':'] + nombre + seq![':'];
    assert forall|t: int| 0 <= t < marco.len() implies neutro(#[trigger] marco[t]) by {
        if 1 <= t < 1 + nombre.len() {
            assert(marco[t] == nombre[t - 1]);
            assert(de_lista(nombre[t - 1]));
        }
    }
    assert(b =~= marco + fin2);
    lema_revisar_neutra(marco, fin2, 0, 2);
    assert(fin2[0] == ']');
    assert(fin2.drop_first() =~= fin1);
    assert(fin1[0] == ']');
    assert(fin1.drop_first() =~= Seq::<char>::empty());
    assert(revisar(Seq::<char>::empty(), 0, 0) == Revision::Correcta);
    assert(revisar(fin1, 0, 1) == Revision::Correcta);
    assert(revisar(fin2, 0, 2) == Revision::Correcta);
    assert(x[0] == '[');
    assert(x.drop_first() =~= b);
    assert(revisar(x, 0, 1) == Revision::Correcta);
    lema_revisar_neutra(n, x, 0, 1);
    assert(revisar(interior, 0, 1) == Revision::Correcta);
    assert(revisar(e, 0, 0) == Revision::Correcta);
    assert(sin_barra(seq!['['] + n + seq!['[', ':']));
    assert(sin_barra(seq![':', ']', ']']));
    lema_sin_barra_concat(seq!['['] + n + seq!['[', ':'], nombre);
    lema_sin_barra_concat(seq!['['] + n + seq!['[', ':'] + nombre, seq![':', ']', ']']);
    lema_primer_barra_sin_barra(e);
    assert(e.take(e.len() as int) =~= e);
    // How it is read.
    let tras_nombre = seq![':'] + fin2;
    assert(b.drop_first() =~= nombre + tras_nombre);
    assert(b[0] == ':');
    lema_leer_lista(nombre, tras_nombre, 1, true, negado, seq![]);
    assert(Seq::<char>::empty() + nombre =~= nombre);
    assert(tras_nombre[0] == ':');
    assert(tras_nombre.drop_first() =~= fin2);
    assert(leer_corchete(fin1, 2, true, negado, nombre) == (LecturaCorchete {
        aux: nombre,
        hay_clase: true,
        negado,
        resto: seq![],
    }));
    assert(leer_corchete(fin2, 1, true, negado, nombre) == leer_corchete(fin1, 2, true, negado, nombre));
    assert(leer_corchete(tras_nombre, 1, true, negado, nombre) == leer_corchete(fin2, 1, true, negado, nombre));
    assert(leer_corchete(b, 1, true, negado, seq![]) == leer_corchete(nombre + tras_nombre, 1, true, negado, seq![]));
    assert(leer_corchete(x, 1, false, negado, seq![]) == leer_corchete(b, 1, true, negado, seq![]));
    assert(leer_corchete(x, 1, false, negado, seq![]) == (LecturaCorchete {
        aux: nombre,
        hay_clase: true,
        negado,
        resto: seq![],
    }));
    if negado {
        assert(interior[0] == '^');
        assert(interior.drop_first() =~= x);
    } else {
        assert(interior =~= x);
    }
    assert(leer_corchete(interior, 1, false, false, seq![]) == (LecturaCorchete {
        aux: nombre,
        hay_clase: true,
        negado,
        resto: seq![],
    }));
    assert(pasos_iniciales(e) == seq![comodin_inicial()]);
    assert(seq![comodin_inicial()].push(paso) =~= seq![comodin_inicial(), paso]);
    assert(analizar(seq![comodin_inicial()], e) == analizar(seq![comodin_inicial(), paso], seq![]));
    // What it matches.
    let us = seq![CaracterV::Serie(clase)];
    assert(unidades_de_un_caracter(us));
    assert(inicio(false) + pasos_de(us) + cierre(Remate::Nada) =~= seq![comodin_inicial(), paso]);
    ley_unidades(us, false, Remate::Nada, linea);
    lema_encuentra_clase(clase, linea);
    assert(evaluar_alternativas(e, linea) == Some(
        Ok::<bool, Error>(hay_en_clase(clase, linea)),
    ));
}

} // verus!
