//! What it means for the steps of an expression to match a stretch of a line:
//! each step matches its unit a number of times in a row that its repetition
//! allows, and the steps do so one after another. A line is accepted when some
//! stretch of it matches; with no `^` the stretch may start anywhere.
use vstd::prelude::*;
use crate::analisis::{
    Analisis, Revision, analizar, analizar_expresion, fabricar_paso, ley_paso_literal, comodin_inicial, lema_primer_barra, partes, primer_barra,
    revisar,
};
use crate::errors::Error;
use crate::caracter::{CaracterV, admite};
use crate::paso_regex::PasoV;
use crate::repeticion::Repeticion;

verus! {

/// Where one match of a unit at position `i` of the line ends: one character
/// further on for a unit that accepts the character at `i`; `$` matches the
/// empty stretch at the end of the line.
pub open spec fn avance(car: CaracterV, linea: Seq<char>, i: int) -> Option<int> {
    match car {
        CaracterV::Dolar => if i == linea.len() {
            Some(i)
        } else {
            None
        },
        _ => if 0 <= i < linea.len() && admite(car, linea[i]) {
            Some(i + 1)
        } else {
            None
        },
    }
}

/// Where `c` matches in a row of a unit, from position `i`, end.
pub open spec fn tras(car: CaracterV, linea: Seq<char>, i: int, c: nat) -> Option<int>
    decreases c,
{
    if c == 0 {
        Some(i)
    } else {
        match tras(car, linea, i, (c - 1) as nat) {
            Some(k) => avance(car, linea, k),
            None => None,
        }
    }
}

/// Whether a repetition allows `c` matches: exactly `n`, any number, or a number
/// within the bounds that are given.
pub open spec fn cuenta_valida(rep: Repeticion, c: nat) -> bool {
    match rep {
        Repeticion::Exacta(n, _) => c == n,
        Repeticion::Alguna(_) => true,
        Repeticion::Rango { min, max } => {
            &&& (min matches Some(m) ==> m <= c)
            &&& (max matches Some(m) ==> c <= m)
        },
    }
}

/// Whether the steps match the line from position `i` to position `j`.
pub open spec fn casa(pasos: Seq<PasoV>, linea: Seq<char>, i: int, j: int) -> bool
    decreases pasos.len(),
{
    if pasos.len() == 0 {
        i == j
    } else {
        exists|c: nat|
            cuenta_valida(pasos[0].repeticion, c) && (#[trigger] tras(pasos[0].caracter, linea, i, c) matches Some(
                k,
            ) && casa(pasos.drop_first(), linea, k, j))
    }
}

/// Whether the steps match some stretch of the line that starts at `i`.
pub open spec fn casa_desde(pasos: Seq<PasoV>, linea: Seq<char>, i: int) -> bool {
    exists|j: int| casa(pasos, linea, i, j)
}

/// Whether the first step, matched `c` times from `i`, leaves a position from
/// which the other steps match.
pub open spec fn sigue(p: PasoV, resto: Seq<PasoV>, linea: Seq<char>, i: int, c: nat) -> bool {
    &&& cuenta_valida(p.repeticion, c)
    &&& tras(p.caracter, linea, i, c) matches Some(k)
    &&& casa_desde(resto, linea, k)
}

/// Whether the steps match from the position `c` characters after `i`.
pub open spec fn desde_tras(pasos: Seq<PasoV>, linea: Seq<char>, i: int, c: nat) -> bool {
    casa_desde(pasos, linea, i + c)
}

/// Whether the line is accepted by steps that are matched from its start (a
/// leading `.*` lets the match start anywhere).
pub open spec fn acepta(linea: Seq<char>, pasos: Seq<PasoV>) -> bool {
    casa_desde(pasos, linea, 0)
}

/// Whether steps start with the `.*` that an expression without `^` gets.
pub open spec fn empieza_libre(pasos: Seq<PasoV>) -> bool {
    pasos.len() > 0 && pasos[0] == comodin_inicial()
}

/// The steps that the user wrote: without the leading `.*`.
pub open spec fn patron(pasos: Seq<PasoV>) -> Seq<PasoV> {
    if empieza_libre(pasos) {
        pasos.drop_first()
    } else {
        pasos
    }
}

/// Whether the line contains a stretch, from `i` to `j`, that the pattern
/// matches; one that starts at the start of the line where the steps have no
/// leading `.*` (the expression starts with `^`).
pub open spec fn hay_coincidencia(pasos: Seq<PasoV>, linea: Seq<char>) -> bool {
    exists|i: int, j: int|
        0 <= i <= j <= linea.len() && (!empieza_libre(pasos) ==> i == 0) && #[trigger] casa(
            patron(pasos),
            linea,
            i,
            j,
        )
}

/// Matches of a unit that accepts characters one at a time: `c` matches from `i`
/// end at `i + c` exactly when the `c` characters from `i` are in the line and
/// the unit accepts each of them.
pub proof fn lema_tras_unidad(car: CaracterV, linea: Seq<char>, i: int, c: nat)
    requires
        !(car is Dolar),
        0 <= i <= linea.len(),
    ensures
        tras(car, linea, i, c) == (if i + c <= linea.len() && (forall|t: int|
            i <= t < i + c ==> admite(car, #[trigger] linea[t])) {
            Some(i + c)
        } else {
            None::<int>
        }),
    decreases c,
{
    if c > 0 {
        let c1 = (c - 1) as nat;
        lema_tras_unidad(car, linea, i, c1);
        let antes = i + c1 <= linea.len() && (forall|t: int| i <= t < i + c1 ==> admite(car, #[trigger] linea[t]));
        let ahora = i + c <= linea.len() && (forall|t: int| i <= t < i + c ==> admite(car, #[trigger] linea[t]));
        if ahora {
            assert(antes);
            assert(admite(car, linea[i + c1]));
            assert(avance(car, linea, i + c1) == Some(i + c));
            assert(tras(car, linea, i, c) == Some(i + c));
        } else if antes {
            if i + c1 < linea.len() && admite(car, linea[i + c1]) {
                assert forall|t: int| i <= t < i + c implies admite(car, #[trigger] linea[t]) by {
                    if t < i + c1 {
                    }
                }
                assert(false);
            }
            assert(avance(car, linea, i + c1) == None::<int>);
            assert(tras(car, linea, i, c) == None::<int>);
        } else {
            assert(tras(car, linea, i, c1) == None::<int>);
            assert(tras(car, linea, i, c) == None::<int>);
        }
    }
}

/// Matches of `$` never move: any number of them match at the end of the line,
/// and none elsewhere but zero.
pub proof fn lema_tras_dolar(linea: Seq<char>, i: int, c: nat)
    ensures
        tras(CaracterV::Dolar, linea, i, c) == (if c == 0 || i == linea.len() {
            Some(i)
        } else {
            None::<int>
        }),
    decreases c,
{
    if c > 0 {
        lema_tras_dolar(linea, i, (c - 1) as nat);
    }
}

/// Where a maximal run of `r` accepted characters starts at `i`, `c` matches end
/// at `i + c` when `c <= r`, and fail otherwise.
pub proof fn lema_tras_corrida(car: CaracterV, linea: Seq<char>, i: int, r: int, c: nat)
    requires
        !(car is Dolar),
        0 <= i,
        0 <= r,
        i + r <= linea.len(),
        forall|t: int| i <= t < i + r ==> admite(car, #[trigger] linea[t]),
        i + r < linea.len() ==> !admite(car, linea[i + r]),
    ensures
        tras(car, linea, i, c) == (if c <= r {
            Some(i + c)
        } else {
            None::<int>
        }),
{
    lema_tras_unidad(car, linea, i, c);
    if c > r && i + c <= linea.len() {
        assert(!(forall|t: int| i <= t < i + c ==> admite(car, #[trigger] linea[t]))) by {
            assert(!admite(car, linea[i + r]));
        }
    }
}

/// Matches stay within the line.
pub proof fn lema_tras_en_linea(car: CaracterV, linea: Seq<char>, i: int, c: nat)
    requires
        0 <= i <= linea.len(),
    ensures
        tras(car, linea, i, c) matches Some(k) ==> i <= k <= linea.len(),
    decreases c,
{
    if c > 0 {
        lema_tras_en_linea(car, linea, i, (c - 1) as nat);
    }
}

/// A stretch that steps match lies within the line, after its start.
pub proof fn lema_casa_en_linea(pasos: Seq<PasoV>, linea: Seq<char>, i: int, j: int)
    requires
        0 <= i <= linea.len(),
        casa(pasos, linea, i, j),
    ensures
        i <= j <= linea.len(),
    decreases pasos.len(),
{
    if pasos.len() > 0 {
        let c = choose|c: nat|
            cuenta_valida(pasos[0].repeticion, c) && (#[trigger] tras(pasos[0].caracter, linea, i, c) matches Some(
                k,
            ) && casa(pasos.drop_first(), linea, k, j));
        lema_tras_en_linea(pasos[0].caracter, linea, i, c);
        let k = tras(pasos[0].caracter, linea, i, c).unwrap();
        lema_casa_en_linea(pasos.drop_first(), linea, k, j);
    }
}

/// No steps match the empty stretch only.
pub proof fn lema_desde_vacio(pasos: Seq<PasoV>, linea: Seq<char>, i: int)
    requires
        pasos.len() == 0,
    ensures
        casa_desde(pasos, linea, i),
{
    assert(casa(pasos, linea, i, i));
}

/// Steps match from `i` exactly when their first step can be matched some number
/// of times after which the others match.
pub proof fn lema_desde_paso(pasos: Seq<PasoV>, linea: Seq<char>, i: int)
    requires
        pasos.len() > 0,
    ensures
        casa_desde(pasos, linea, i) == exists|c: nat| #[trigger] sigue(pasos[0], pasos.drop_first(), linea, i, c),
{
    let p = pasos[0];
    let resto = pasos.drop_first();
    if casa_desde(pasos, linea, i) {
        let j = choose|j: int| casa(pasos, linea, i, j);
        let c = choose|c: nat|
            cuenta_valida(p.repeticion, c) && (#[trigger] tras(p.caracter, linea, i, c) matches Some(k) && casa(
                resto,
                linea,
                k,
                j,
            ));
        let k = tras(p.caracter, linea, i, c).unwrap();
        assert(casa(resto, linea, k, j));
        assert(sigue(p, resto, linea, i, c));
    }
    if exists|c: nat| #[trigger] sigue(p, resto, linea, i, c) {
        let c = choose|c: nat| #[trigger] sigue(p, resto, linea, i, c);
        let k = tras(p.caracter, linea, i, c).unwrap();
        let j = choose|j: int| casa(resto, linea, k, j);
        assert(cuenta_valida(p.repeticion, c) && (tras(p.caracter, linea, i, c) matches Some(k2) && casa(
            resto,
            linea,
            k2,
            j,
        )));
        assert(casa(pasos, linea, i, j));
    }
}

/// A literal accepts exactly itself, `.` accepts every character, and `$`
/// accepts none (it matches the empty stretch at the end of the line instead).
pub proof fn ley_admite(l: char, d: char)
    ensures
        admite(CaracterV::Literal(l), d) == (l == d),
        admite(CaracterV::Comodin, d),
        !admite(CaracterV::Dolar, d),
        avance(CaracterV::Dolar, Seq::<char>::empty(), 0) == Some(0int),
{
}

/// One step whose unit takes one character matches exactly the stretches from
/// `i` to `j` of the line whose characters the unit all accepts and whose length
/// its repetition allows: exactly `n` for `{n}`, any for `*`, and within the
/// bounds given for a range (`?` is 0 to 1, `+` at least 1).
pub proof fn ley_paso_unidad(car: CaracterV, rep: Repeticion, linea: Seq<char>, i: int, j: int)
    requires
        !(car is Dolar),
        0 <= i <= linea.len(),
    ensures
        casa(seq![PasoV { caracter: car, repeticion: rep }], linea, i, j) == {
            &&& i <= j <= linea.len()
            &&& forall|t: int| i <= t < j ==> admite(car, #[trigger] linea[t])
            &&& match rep {
                Repeticion::Exacta(n, _) => j - i == n,
                Repeticion::Alguna(_) => true,
                Repeticion::Rango { min, max } => {
                    &&& (min matches Some(m) ==> m <= j - i)
                    &&& (max matches Some(m) ==> j - i <= m)
                },
            }
        },
{
    let pasos = seq![PasoV { caracter: car, repeticion: rep }];
    assert(pasos.drop_first() =~= Seq::<PasoV>::empty());
    if casa(pasos, linea, i, j) {
        let c = choose|c: nat|
            cuenta_valida(pasos[0].repeticion, c) && (#[trigger] tras(pasos[0].caracter, linea, i, c) matches Some(
                k,
            ) && casa(pasos.drop_first(), linea, k, j));
        lema_tras_unidad(car, linea, i, c);
    }
    if i <= j <= linea.len() && (forall|t: int| i <= t < j ==> admite(car, #[trigger] linea[t])) {
        let c = (j - i) as nat;
        lema_tras_unidad(car, linea, i, c);
        if cuenta_valida(rep, c) {
            assert(tras(pasos[0].caracter, linea, i, c) == Some(j));
            assert(casa(pasos.drop_first(), linea, j, j));
        }
    }
}

/// A line is accepted exactly when it contains a stretch that the pattern
/// matches: anywhere when the expression has no `^`, at the start of the line
/// when it has one. This holds for every pattern, whatever its steps.
pub proof fn ley_busqueda_general(pasos: Seq<PasoV>, linea: Seq<char>)
    ensures
        acepta(linea, pasos) == hay_coincidencia(pasos, linea),
{
    let n = linea.len();
    if empieza_libre(pasos) {
        let resto = pasos.drop_first();
        let p = pasos[0];
        assert(patron(pasos) == resto);
        if acepta(linea, pasos) {
            let j = choose|j: int| casa(pasos, linea, 0, j);
            let c = choose|c: nat|
                cuenta_valida(p.repeticion, c) && (#[trigger] tras(p.caracter, linea, 0, c) matches Some(k) && casa(
                    resto,
                    linea,
                    k,
                    j,
                ));
            lema_tras_unidad(CaracterV::Comodin, linea, 0, c);
            let k = tras(p.caracter, linea, 0, c).unwrap();
            assert(k == c);
            lema_casa_en_linea(resto, linea, k, j);
            assert(0 <= k <= j <= n && casa(patron(pasos), linea, k, j));
        }
        if hay_coincidencia(pasos, linea) {
            let (i, j) = choose|i: int, j: int|
                0 <= i <= j <= linea.len() && (!empieza_libre(pasos) ==> i == 0) && #[trigger] casa(
                    patron(pasos),
                    linea,
                    i,
                    j,
                );
            let c = i as nat;
            lema_tras_unidad(CaracterV::Comodin, linea, 0, c);
            assert(tras(p.caracter, linea, 0, c) == Some(i));
            assert(cuenta_valida(p.repeticion, c));
            assert(casa(pasos, linea, 0, j));
        }
    } else {
        assert(patron(pasos) == pasos);
        if acepta(linea, pasos) {
            let j = choose|j: int| casa(pasos, linea, 0, j);
            lema_casa_en_linea(pasos, linea, 0, j);
            assert(0 <= 0int <= j <= n && casa(patron(pasos), linea, 0, j));
        }
        if hay_coincidencia(pasos, linea) {
            let (i, j) = choose|i: int, j: int|
                0 <= i <= j <= linea.len() && (!empieza_libre(pasos) ==> i == 0) && #[trigger] casa(
                    patron(pasos),
                    linea,
                    i,
                    j,
                );
            assert(casa(pasos, linea, 0, j));
        }
    }
}

/// Matching a line against the alternatives of `s` in turn, until one accepts
/// it or one cannot be read (reading an alternative never panics:
/// `lema_analizar_no_aborta`).
pub open spec fn evaluar_alternativas(s: Seq<char>, linea: Seq<char>) -> Result<bool, Error>
    decreases s.len(),
{
    let k = primer_barra(s);
    match analizar_expresion(s.take(k as int)) {
        Analisis::Listo { pasos, .. } => if !vstd::utf8::is_ascii_chars(linea) {
            Err(Error::FormatoDeLineaNoASCII)
        } else if acepta(linea, pasos) {
            Ok(true)
        } else if k >= s.len() {
            Ok(false)
        } else {
            proof {
                lema_primer_barra(s);
            }
            evaluar_alternativas(s.skip(k as int + 1), linea)
        },
        Analisis::Falla { error, .. } => Err(error),
        Analisis::Aborta => Ok(false),
    }
}

/// Matching a line against a whole expression: first how it is written is
/// checked, then its alternatives are tried; `None` where the check panics.
pub open spec fn valida_general(e: Seq<char>, linea: Seq<char>) -> Option<Result<bool, Error>> {
    match revisar(e, 0, 0) {
        Revision::Aborta => None,
        Revision::Incorrecta(error) => Some(Err(error)),
        Revision::Correcta => Some(evaluar_alternativas(e, linea)),
    }
}

/// Whether an alternative, read on its own, accepts the line.
pub open spec fn alternativa_coincide(parte: Seq<char>, linea: Seq<char>) -> bool {
    match analizar_expresion(parte) {
        Analisis::Listo { pasos, .. } => acepta(linea, pasos),
        _ => false,
    }
}

/// Whether an alternative reads into steps without error.
pub open spec fn alternativa_legible(parte: Seq<char>) -> bool {
    analizar_expresion(parte) is Listo
}

proof fn lema_alternativas(s: Seq<char>, linea: Seq<char>)
    requires
        vstd::utf8::is_ascii_chars(linea),
        forall|i: int| 0 <= i < partes(s).len() ==> alternativa_legible(#[trigger] partes(s)[i]),
    ensures
        evaluar_alternativas(s, linea) == Ok::<bool, Error>(
            exists|i: int| 0 <= i < partes(s).len() && alternativa_coincide(#[trigger] partes(s)[i], linea),
        ),
    decreases s.len(),
{
    lema_primer_barra(s);
    let k = primer_barra(s);
    if k >= s.len() {
        assert(s.take(k as int) =~= s);
        assert(partes(s) == seq![s]);
        assert(alternativa_legible(partes(s)[0]));
        if alternativa_coincide(s, linea) {
            assert(alternativa_coincide(partes(s)[0], linea));
        }
    } else {
        let resto = s.skip(k as int + 1);
        assert(partes(s) == seq![s.take(k as int)] + partes(resto));
        assert(partes(s)[0] == s.take(k as int));
        assert(alternativa_legible(partes(s)[0]));
        assert forall|i: int| 0 <= i < partes(resto).len() implies alternativa_legible(#[trigger] partes(resto)[i]) by {
            assert(partes(s)[i + 1] == partes(resto)[i]);
        }
        lema_alternativas(resto, linea);
        if alternativa_coincide(s.take(k as int), linea) {
            assert(alternativa_coincide(partes(s)[0], linea));
        } else {
            if exists|i: int| 0 <= i < partes(s).len() && alternativa_coincide(#[trigger] partes(s)[i], linea) {
                let i = choose|i: int| 0 <= i < partes(s).len() && alternativa_coincide(#[trigger] partes(s)[i], linea);
                assert(i > 0);
                assert(partes(s)[i] == partes(resto)[i - 1]);
            }
            if exists|i: int| 0 <= i < partes(resto).len() && alternativa_coincide(#[trigger] partes(resto)[i], linea) {
                let i = choose|i: int| 0 <= i < partes(resto).len() && alternativa_coincide(#[trigger] partes(resto)[i], linea);
                assert(partes(s)[i + 1] == partes(resto)[i]);
            }
        }
    }
}

/// An expression with alternatives `a|b|...` accepts a line exactly when one of
/// its alternatives, read on its own, accepts it (where the expression is well
/// written, the line is ASCII, and every alternative reads without error).
pub proof fn ley_alternativas(e: Seq<char>, linea: Seq<char>)
    requires
        revisar(e, 0, 0) is Correcta,
        vstd::utf8::is_ascii_chars(linea),
        forall|i: int| 0 <= i < partes(e).len() ==> alternativa_legible(#[trigger] partes(e)[i]),
    ensures
        valida_general(e, linea) == Some(Ok::<bool, Error>(
            exists|i: int| 0 <= i < partes(e).len() && alternativa_coincide(#[trigger] partes(e)[i], linea),
        )),
{
    lema_alternativas(e, linea);
}

/// A check that ends well on its own leaves the counts at zero: what follows it
/// is checked as on its own.
proof fn lema_revisar_concat(x: Seq<char>, r: Seq<char>, llaves: int, corchetes: int)
    requires
        revisar(x, llaves, corchetes) is Correcta,
    ensures
        revisar(x + r, llaves, corchetes) == revisar(r, 0, 0),
    decreases x.len(),
{
    if x.len() == 0 {
        assert(x + r =~= r);
    } else {
        assert((x + r).drop_first() =~= x.drop_first() + r);
        assert((x + r)[0] == x[0]);
        let c = x[0];
        if c == '{' {
            lema_revisar_concat(x.drop_first(), r, llaves + 1, corchetes);
        } else if c == '}' {
            lema_revisar_concat(x.drop_first(), r, llaves - 1, corchetes);
        } else if c == '[' {
            lema_revisar_concat(x.drop_first(), r, llaves, corchetes + 1);
        } else if c == ']' {
            lema_revisar_concat(x.drop_first(), r, llaves, corchetes - 1);
        } else {
            lema_revisar_concat(x.drop_first(), r, llaves, corchetes);
        }
    }
}

/// Before a stretch without `|`, the first `|` is found after it.
proof fn lema_primer_barra_concat(x: Seq<char>, r: Seq<char>)
    requires
        !x.contains('|'),
    ensures
        primer_barra(x + r) == x.len() + primer_barra(r),
    decreases x.len(),
{
    if x.len() == 0 {
        assert(x + r =~= r);
    } else {
        assert((x + r).drop_first() =~= x.drop_first() + r);
        assert((x + r)[0] == x[0]);
        assert(x[0] != '|');
        assert(!x.drop_first().contains('|')) by {
            if x.drop_first().contains('|') {
                let t = choose|t: int| 0 <= t < x.drop_first().len() && x.drop_first()[t] == '|';
                assert(x[t + 1] == '|');
            }
        }
        lema_primer_barra_concat(x.drop_first(), r);
    }
}

/// An expression without `|` is its one alternative.
proof fn lema_partes_sin_barra(x: Seq<char>)
    requires
        !x.contains('|'),
    ensures
        partes(x) == seq![x],
{
    lema_primer_barra_concat(x, Seq::empty());
    assert(x + Seq::<char>::empty() =~= x);
}

/// `a|b` and `b|a` answer alike on every line, and accept it exactly when `a` or
/// `b` accepts it on its own (for `a` and `b` without `|`, each well written and
/// read without error, and an ASCII line).
pub proof fn ley_barra_simetrica(a: Seq<char>, b: Seq<char>, linea: Seq<char>)
    requires
        !a.contains('|'),
        !b.contains('|'),
        revisar(a, 0, 0) is Correcta,
        revisar(b, 0, 0) is Correcta,
        alternativa_legible(a),
        alternativa_legible(b),
        vstd::utf8::is_ascii_chars(linea),
    ensures
        valida_general(a + seq!['|'] + b, linea) == valida_general(b + seq!['|'] + a, linea),
        valida_general(a + seq!['|'] + b, linea) == Some(Ok::<bool, Error>(
            alternativa_coincide(a, linea) || alternativa_coincide(b, linea),
        )),
        valida_general(a, linea) == Some(Ok::<bool, Error>(alternativa_coincide(a, linea))),
        valida_general(a + seq!['|'] + b, linea) == Some(Ok::<bool, Error>(true)) <==> (valida_general(
            a,
            linea,
        ) == Some(Ok::<bool, Error>(true)) || valida_general(b, linea) == Some(Ok::<bool, Error>(true))),
{
    lema_una_alternativa(a, linea);
    lema_una_alternativa(b, linea);
    lema_dos_alternativas(a, b, linea);
    lema_dos_alternativas(b, a, linea);
}

proof fn lema_una_alternativa(a: Seq<char>, linea: Seq<char>)
    requires
        !a.contains('|'),
        revisar(a, 0, 0) is Correcta,
        alternativa_legible(a),
        vstd::utf8::is_ascii_chars(linea),
    ensures
        valida_general(a, linea) == Some(Ok::<bool, Error>(alternativa_coincide(a, linea))),
{
    lema_partes_sin_barra(a);
    assert(partes(a)[0] == a);
    ley_alternativas(a, linea);
    if alternativa_coincide(a, linea) {
        assert(alternativa_coincide(partes(a)[0], linea));
    }
}

proof fn lema_dos_alternativas(a: Seq<char>, b: Seq<char>, linea: Seq<char>)
    requires
        !a.contains('|'),
        !b.contains('|'),
        revisar(a, 0, 0) is Correcta,
        revisar(b, 0, 0) is Correcta,
        alternativa_legible(a),
        alternativa_legible(b),
        vstd::utf8::is_ascii_chars(linea),
    ensures
        valida_general(a + seq!['|'] + b, linea) == Some(Ok::<bool, Error>(
            alternativa_coincide(a, linea) || alternativa_coincide(b, linea),
        )),
{
    let barra_b = seq!['|'] + b;
    let e = a + barra_b;
    assert(a + seq!['|'] + b =~= e);
    lema_revisar_concat(a, barra_b, 0, 0);
    assert(barra_b[0] == '|');
    assert(barra_b.drop_first() =~= b);
    assert(revisar(barra_b, 0, 0) == revisar(b, 0, 0));
    lema_primer_barra_concat(a, barra_b);
    assert(primer_barra(barra_b) == 0);
    assert(primer_barra(e) == a.len());
    assert(e.take(a.len() as int) =~= a);
    assert(e.skip(a.len() as int + 1) =~= b);
    lema_partes_sin_barra(b);
    assert(partes(e) == seq![a] + partes(b));
    assert(partes(e) =~= seq![a, b]);
    ley_alternativas(e, linea);
    if alternativa_coincide(a, linea) {
        assert(alternativa_coincide(partes(e)[0], linea));
    }
    if alternativa_coincide(b, linea) {
        assert(alternativa_coincide(partes(e)[1], linea));
    }
}

/// Characters that stand for themselves: ASCII letters, ASCII digits and space.
pub open spec fn de_texto(p: Seq<char>) -> bool {
    forall|t: int|
        0 <= t < p.len() ==> ('a' <= #[trigger] p[t] && p[t] <= 'z') || ('A' <= p[t] && p[t] <= 'Z') || (
        '0' <= p[t] && p[t] <= '9') || p[t] == ' '
}

/// One step per character, each matching that character once.
pub open spec fn pasos_literales(p: Seq<char>) -> Seq<PasoV>
    decreases p.len(),
{
    if p.len() == 0 {
        seq![]
    } else {
        seq![PasoV { caracter: CaracterV::Literal(p[0]), repeticion: Repeticion::Exacta(1, false) }]
            + pasos_literales(p.drop_first())
    }
}

/// The first of the steps for the characters of `p` (whose first character is
/// `d`), and the others.
proof fn lema_pasos_literales_cabeza(pasos: Seq<PasoV>, p: Seq<char>, d: char)
    requires
        p.len() > 0,
        d == p[0],
    ensures
        pasos_literales(p).len() > 0,
        pasos_literales(p)[0] == (PasoV { caracter: CaracterV::Literal(d), repeticion: Repeticion::Exacta(1, false) }),
        pasos_literales(p).drop_first() == pasos_literales(p.drop_first()),
        pasos.push(PasoV { caracter: CaracterV::Literal(d), repeticion: Repeticion::Exacta(1, false) })
            + pasos_literales(p.drop_first()) == pasos + pasos_literales(p),
{
    let x = PasoV { caracter: CaracterV::Literal(d), repeticion: Repeticion::Exacta(1, false) };
    let resto = pasos_literales(p.drop_first());
    assert(pasos_literales(p) == seq![x] + resto);
    assert((seq![x] + resto).drop_first() =~= resto);
    assert(pasos.push(x) + resto =~= pasos + (seq![x] + resto));
}

proof fn lema_de_texto_resto(p: Seq<char>)
    requires
        de_texto(p),
        p.len() > 0,
    ensures
        de_texto(p.drop_first()),
{
    assert forall|t: int| 0 <= t < p.drop_first().len() implies ('a' <= #[trigger] p.drop_first()[t]
        && p.drop_first()[t] <= 'z') || ('A' <= p.drop_first()[t] && p.drop_first()[t] <= 'Z') || (
    '0' <= p.drop_first()[t] && p.drop_first()[t] <= '9') || p.drop_first()[t] == ' ' by {
        assert(p.drop_first()[t] == p[t + 1]);
    }
}

proof fn lema_analizar_texto(pasos: Seq<PasoV>, p: Seq<char>)
    requires
        de_texto(p),
    ensures
        analizar(pasos, p) == (Analisis::Listo { pasos: pasos + pasos_literales(p), resto: Seq::<char>::empty() }),
    decreases p.len(),
{
    if p.len() == 0 {
        assert(pasos + pasos_literales(p) =~= pasos);
        assert(p =~= Seq::<char>::empty());
    } else {
        let c = p[0];
        let x = PasoV { caracter: CaracterV::Literal(c), repeticion: Repeticion::Exacta(1, false) };
        assert(('a' <= c && c <= 'z') || ('A' <= c && c <= 'Z') || ('0' <= c && c <= '9') || c == ' ');
        ley_paso_literal(c, pasos, p.drop_first());
        lema_de_texto_resto(p);
        lema_analizar_texto(pasos.push(x), p.drop_first());
        lema_pasos_literales_cabeza(pasos, p, c);
    }
}

proof fn lema_casa_texto(p: Seq<char>, linea: Seq<char>, i: int, j: int)
    requires
        de_texto(p),
        0 <= i <= linea.len(),
    ensures
        casa(pasos_literales(p), linea, i, j) == (j == i + p.len() && j <= linea.len() && linea.subrange(i, j) == p),
    decreases p.len(),
{
    let ps = pasos_literales(p);
    if p.len() == 0 {
        if j == i {
            assert(linea.subrange(i, j) =~= p);
        }
    } else {
        let c = p[0];
        let car = CaracterV::Literal(c);
        let resto = p.drop_first();
        lema_pasos_literales_cabeza(seq![], p, c);
        lema_de_texto_resto(p);
        lema_tras_unidad(car, linea, i, 1);
        let avanza = i + 1 <= linea.len() && linea[i] == c;
        if avanza {
            assert(forall|t: int| i <= t < i + 1 ==> admite(car, #[trigger] linea[t]));
            lema_casa_texto(resto, linea, i + 1, j);
        }
        if casa(ps, linea, i, j) {
            let k = choose|k: nat|
                cuenta_valida(ps[0].repeticion, k) && (#[trigger] tras(ps[0].caracter, linea, i, k) matches Some(
                    m,
                ) && casa(ps.drop_first(), linea, m, j));
            assert(k == 1);
            if !avanza {
                assert(!admite(car, linea[i]));
            }
            assert(linea.subrange(i, j) =~= seq![c] + linea.subrange(i + 1, j));
            assert(p =~= seq![c] + resto);
        }
        if j == i + p.len() && j <= linea.len() && linea.subrange(i, j) == p {
            assert(linea[i] == linea.subrange(i, j)[0]);
            assert(linea.subrange(i + 1, j) =~= linea.subrange(i, j).drop_first());
            assert(avanza);
            assert(tras(ps[0].caracter, linea, i, 1) == Some(i + 1));
            assert(casa(ps.drop_first(), linea, i + 1, j));
            assert(cuenta_valida(ps[0].repeticion, 1));
        }
    }
}

proof fn lema_revisar_texto(p: Seq<char>)
    requires
        de_texto(p),
    ensures
        revisar(p, 0, 0) is Correcta,
        !p.contains('|'),
    decreases p.len(),
{
    if p.len() > 0 {
        assert(('a' <= p[0] && p[0] <= 'z') || ('A' <= p[0] && p[0] <= 'Z') || ('0' <= p[0] && p[0] <= '9') || p[0] == ' ');
        lema_de_texto_resto(p);
        lema_revisar_texto(p.drop_first());
        if p.contains('|') {
            let t = choose|t: int| 0 <= t < p.len() && p[t] == '|';
            if t > 0 {
                assert(p.drop_first()[t - 1] == '|');
            }
        }
    }
}

/// An expression of letters, digits and spaces (no `^`) is found as a stretch
/// of the line: it accepts an ASCII line exactly when the line holds its
/// characters, in order and one after another, somewhere.
pub proof fn ley_texto_literal(p: Seq<char>, linea: Seq<char>)
    requires
        de_texto(p),
        vstd::utf8::is_ascii_chars(linea),
    ensures
        valida_general(p, linea) == Some(Ok::<bool, Error>(
            exists|i: int| 0 <= i && i + p.len() <= linea.len() && #[trigger] linea.subrange(i, i + p.len()) == p,
        )),
{
    lema_revisar_texto(p);
    if p.len() > 0 {
        assert(p[0] != '^') by {
            assert(('a' <= p[0] && p[0] <= 'z') || ('A' <= p[0] && p[0] <= 'Z') || ('0' <= p[0] && p[0] <= '9') || p[0] == ' ');
        }
    }
    let pasos = seq![comodin_inicial()] + pasos_literales(p);
    lema_analizar_texto(seq![comodin_inicial()], p);
    assert(alternativa_legible(p));
    lema_una_alternativa(p, linea);
    ley_busqueda_general(pasos, linea);
    assert(empieza_libre(pasos));
    assert(patron(pasos) =~= pasos_literales(p));
    let hay = exists|i: int| 0 <= i && i + p.len() <= linea.len() && #[trigger] linea.subrange(i, i + p.len()) == p;
    if hay_coincidencia(pasos, linea) {
        let (i, j) = choose|i: int, j: int|
            0 <= i <= j <= linea.len() && (!empieza_libre(pasos) ==> i == 0) && #[trigger] casa(
                patron(pasos),
                linea,
                i,
                j,
            );
        lema_casa_texto(p, linea, i, j);
        assert(linea.subrange(i, i + p.len()) == p);
    }
    if hay {
        let i = choose|i: int| 0 <= i && i + p.len() <= linea.len() && #[trigger] linea.subrange(i, i + p.len()) == p;
        lema_casa_texto(p, linea, i, i + p.len());
        assert(casa(patron(pasos), linea, i, i + p.len()));
    }
}

} // verus!
