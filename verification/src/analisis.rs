//! What reading an expression gives: the steps it is turned into, or the error
//! that stops it.
use vstd::prelude::*;
use crate::caracter::CaracterV;
use crate::clase_char::ClaseCharV;
use crate::errors::Error;
use crate::paso_regex::PasoV;
use crate::repeticion::Repeticion;
use crate::texto::{es_ascii_digito, valor_digito};

verus! {

/// The outcome of reading (part of) an expression: the steps so far and the
/// characters not read yet; or an error, with the steps and the characters left
/// where it stopped; or a read that does not finish because the reading panics.
pub enum Analisis {
    Listo { pasos: Seq<PasoV>, resto: Seq<char> },
    Falla { error: Error, pasos: Seq<PasoV>, resto: Seq<char> },
    Aborta,
}

/// A step that matches its unit exactly once.
pub open spec fn paso_unitario(car: CaracterV) -> PasoV {
    PasoV { caracter: car, repeticion: Repeticion::Exacta(1, false) }
}

/// The step `.*` put in front of an expression that does not start with `^`.
pub open spec fn comodin_inicial() -> PasoV {
    PasoV { caracter: CaracterV::Comodin, repeticion: Repeticion::Alguna(false) }
}

/// Whether the previous step is the `.*` in front of the expression, so that a
/// repetition has nothing to repeat.
pub open spec fn no_hay_anterior(p: PasoV) -> bool {
    p.caracter is Comodin && p.repeticion == Repeticion::Alguna(false)
}

/// The steps with the repetition of the last one replaced.
pub open spec fn con_repeticion(pasos: Seq<PasoV>, r: Repeticion) -> Seq<PasoV> {
    pasos.update(pasos.len() - 1, PasoV { caracter: pasos.last().caracter, repeticion: r })
}

/// The characters that stand for themselves in an expression.
pub open spec fn es_literal_simple(c: char) -> bool {
    ('a' <= c && c <= 'z') || ('A' <= c && c <= 'Z') || ('0' <= c && c <= '9') || c == ' '
}

/// What is read between `{` and `}`.
pub enum LecturaLlave {
    Leida { contenido: Seq<char>, rangos: Seq<usize>, resto: Seq<char> },
    NoDigito { resto: Seq<char> },
}

/// Reads up to and including `}` (or to the end): commas and digits are kept in
/// `contenido`, the digits' values in `rangos`; any other character stops the
/// read.
pub open spec fn leer_llave(resto: Seq<char>, contenido: Seq<char>, rangos: Seq<usize>) -> LecturaLlave
    decreases resto.len(),
{
    if resto.len() == 0 {
        LecturaLlave::Leida { contenido, rangos, resto }
    } else {
        let c = resto[0];
        let r = resto.drop_first();
        if c == ',' {
            leer_llave(r, contenido.push(c), rangos)
        } else if c == '}' {
            LecturaLlave::Leida { contenido, rangos, resto: r }
        } else if es_ascii_digito(c) {
            leer_llave(r, contenido.push(c), rangos.push(valor_digito(c) as usize))
        } else {
            LecturaLlave::NoDigito { resto: r }
        }
    }
}

/// The repetition that the contents of braces give.
pub enum DecisionLlave {
    Rep(Repeticion),
    Invalida,
}

/// The value of a run of decimal digits.
pub open spec fn numero(ds: Seq<char>) -> nat
    decreases ds.len(),
{
    if ds.len() == 0 {
        0
    } else {
        numero(ds.drop_last()) * 10 + valor_digito(ds.last())
    }
}

/// The position of the first `,` in `s` (its length when there is none).
pub open spec fn primera_coma(s: Seq<char>) -> nat
    decreases s.len(),
{
    if s.len() == 0 {
        0
    } else if s[0] == ',' {
        0
    } else {
        1 + primera_coma(s.drop_first())
    }
}

pub proof fn lema_primera_coma(s: Seq<char>)
    ensures
        primera_coma(s) <= s.len(),
        primera_coma(s) < s.len() ==> s[primera_coma(s) as int] == ',',
        forall|i: int| 0 <= i < primera_coma(s) ==> s[i] != ',',
    decreases s.len(),
{
    if s.len() > 0 && s[0] != ',' {
        lema_primera_coma(s.drop_first());
        assert forall|i: int| 0 <= i < primera_coma(s) implies s[i] != ',' by {
            if i > 0 {
                assert(s[i] == s.drop_first()[i - 1]);
            }
        }
    }
}

/// A bound written in braces, when it fits in a `usize`.
pub open spec fn cota(ds: Seq<char>) -> Option<usize> {
    if numero(ds) <= usize::MAX {
        Some(numero(ds) as usize)
    } else {
        None
    }
}

/// What braces holding digits and commas mean, each bound written with as many
/// digits as it takes: `{n}` exactly `n` times; `{,m...}` (a leading comma) at
/// most `m`, the number right after it; otherwise `{n...,}` (a trailing comma) at
/// least `n`, the number before the first comma; otherwise `{n,m...}` from `n` to
/// `m`, the numbers before and after the first comma (anything after a second
/// comma is left aside). Where `ordenada` holds, `n` must not exceed `m`. Braces
/// with a bound missing, or one too large for a `usize`, are refused.
pub open spec fn decidir_llave(contenido: Seq<char>, ordenada: bool) -> DecisionLlave {
    let k = primera_coma(contenido) as int;
    let izq = contenido.take(k);
    let der = contenido.skip(k + 1);
    let segundo = der.take(primera_coma(der) as int);
    if contenido.len() == 0 {
        DecisionLlave::Invalida
    } else if k >= contenido.len() {
        match cota(contenido) {
            Some(n) => DecisionLlave::Rep(Repeticion::Exacta(n, false)),
            None => DecisionLlave::Invalida,
        }
    } else if izq.len() == 0 {
        if segundo.len() == 0 {
            DecisionLlave::Invalida
        } else {
            match cota(segundo) {
                Some(m) => DecisionLlave::Rep(Repeticion::Rango { min: None, max: Some(m) }),
                None => DecisionLlave::Invalida,
            }
        }
    } else if contenido.last() == ',' {
        match cota(izq) {
            Some(n) => DecisionLlave::Rep(Repeticion::Rango { min: Some(n), max: None }),
            None => DecisionLlave::Invalida,
        }
    } else if segundo.len() == 0 {
        DecisionLlave::Invalida
    } else {
        match (cota(izq), cota(segundo)) {
            (Some(n), Some(m)) => if !ordenada || n <= m {
                DecisionLlave::Rep(Repeticion::Rango { min: Some(n), max: Some(m) })
            } else {
                DecisionLlave::Invalida
            },
            _ => DecisionLlave::Invalida,
        }
    }
}

/// Digits only.
pub open spec fn solo_digitos(ds: Seq<char>) -> bool {
    forall|t: int| 0 <= t < ds.len() ==> '0' <= #[trigger] ds[t] && ds[t] <= '9'
}

proof fn lema_primera_coma_digitos(a: Seq<char>, r: Seq<char>)
    requires
        solo_digitos(a),
    ensures
        primera_coma(a + r) == a.len() + primera_coma(r),
    decreases a.len(),
{
    if a.len() == 0 {
        assert(a + r =~= r);
    } else {
        assert((a + r)[0] == a[0]);
        assert((a + r).drop_first() =~= a.drop_first() + r);
        assert(solo_digitos(a.drop_first())) by {
            assert forall|t: int| 0 <= t < a.drop_first().len() implies '0' <= #[trigger] a.drop_first()[t]
                && a.drop_first()[t] <= '9' by {
                assert(a.drop_first()[t] == a[t + 1]);
            }
        }
        lema_primera_coma_digitos(a.drop_first(), r);
    }
}

/// What braces mean, by the digits `a` and `b` written in them: `{a}` exactly
/// `a` times, `{a,}` at least `a` times, `{,b}` at most `b` times, `{a,b}` from `a`
/// to `b` times (refused where `ordenada` holds and `a` exceeds `b`). A single
/// digit `d` is worth `d - '0'`.
pub proof fn ley_llaves(a: Seq<char>, b: Seq<char>, ordenada: bool)
    requires
        a.len() > 0,
        b.len() > 0,
        solo_digitos(a),
        solo_digitos(b),
        numero(a) <= usize::MAX,
        numero(b) <= usize::MAX,
    ensures
        decidir_llave(a, ordenada) == DecisionLlave::Rep(Repeticion::Exacta(numero(a) as usize, false)),
        decidir_llave(a + seq![','], ordenada) == DecisionLlave::Rep(
            Repeticion::Rango { min: Some(numero(a) as usize), max: None },
        ),
        decidir_llave(seq![','] + b, ordenada) == DecisionLlave::Rep(
            Repeticion::Rango { min: None, max: Some(numero(b) as usize) },
        ),
        (!ordenada || numero(a) <= numero(b)) ==> decidir_llave(a + seq![','] + b, ordenada)
            == DecisionLlave::Rep(
            Repeticion::Rango { min: Some(numero(a) as usize), max: Some(numero(b) as usize) },
        ),
        (ordenada && numero(a) > numero(b)) ==> decidir_llave(a + seq![','] + b, ordenada)
            == DecisionLlave::Invalida,
        a.len() == 1 ==> numero(a) == a[0] as int - '0' as int,
{
    let coma = seq![','];
    lema_primera_coma_digitos(a, Seq::empty());
    assert(a + Seq::<char>::empty() =~= a);
    assert(a.take(a.len() as int) =~= a);
    // {a,}
    let e1 = a + coma;
    lema_primera_coma_digitos(a, coma);
    assert(e1.take(a.len() as int) =~= a);
    assert(e1.last() == ',');
    // {,b}
    let e2 = coma + b;
    assert(e2[0] == ',');
    assert(e2.skip(1) =~= b);
    lema_primera_coma_digitos(b, Seq::empty());
    assert(b + Seq::<char>::empty() =~= b);
    assert(b.take(b.len() as int) =~= b);
    // {a,b}
    let e3 = a + coma + b;
    assert(e3 =~= a + (coma + b));
    lema_primera_coma_digitos(a, coma + b);
    assert(primera_coma(coma + b) == 0);
    assert(e3.take(a.len() as int) =~= a);
    assert(e3.skip(a.len() as int + 1) =~= b);
    assert(e3.last() == b.last());
    assert('0' <= b[b.len() - 1]);
    if a.len() == 1 {
        assert(a.drop_last() =~= Seq::<char>::empty());
        assert(numero(a.drop_last()) == 0);
        assert(a.last() == a[0]);
        assert('0' <= a[0] <= '9');
        assert(numero(a) == valor_digito(a[0]));
        assert((a[0] as u32) as int == a[0] as int);
    }
}

/// Writing one more digit after a number multiplies it by ten and adds the
/// digit's value.
pub proof fn ley_numero(a: Seq<char>, d: char)
    requires
        '0' <= d && d <= '9',
    ensures
        numero(a.push(d)) == 10 * numero(a) + (d as int - '0' as int),
{
    assert(a.push(d).drop_last() =~= a);
    assert((d as u32) as int == d as int);
}

proof fn lema_leer_llave_digitos(b: Seq<char>, r: Seq<char>, contenido: Seq<char>, rangos: Seq<usize>)
    requires
        forall|t: int| 0 <= t < b.len() ==> #[trigger] b[t] == ',' || ('0' <= b[t] && b[t] <= '9'),
    ensures
        leer_llave(b + seq!['}'] + r, contenido, rangos) matches LecturaLlave::Leida { contenido: c, resto: q, .. }
            && c == contenido + b && q == r,
    decreases b.len(),
{
    let e = b + seq!['}'] + r;
    if b.len() == 0 {
        assert(e =~= seq!['}'] + r);
        assert(e.drop_first() =~= r);
        assert(contenido + b =~= contenido);
    } else {
        let d = b.drop_first();
        assert(e[0] == b[0]);
        assert(e.drop_first() =~= d + seq!['}'] + r);
        assert forall|t: int| 0 <= t < d.len() implies #[trigger] d[t] == ',' || ('0' <= d[t] && d[t] <= '9') by {
            assert(d[t] == b[t + 1]);
        }
        assert(contenido.push(b[0]) + d =~= contenido + b);
        if b[0] == ',' {
            lema_leer_llave_digitos(d, r, contenido.push(b[0]), rangos);
        } else {
            lema_leer_llave_digitos(d, r, contenido.push(b[0]), rangos.push(valor_digito(b[0]) as usize));
        }
    }
}

/// `{n}` after a step makes it be matched exactly `n` times: the other steps and
/// the unit of the last one stay as they were, and the characters after `}` are
/// left to read.
pub proof fn ley_paso_llave_exacta(pasos: Seq<PasoV>, a: Seq<char>, r: Seq<char>)
    requires
        pasos.len() > 0,
        !no_hay_anterior(pasos.last()),
        a.len() > 0,
        solo_digitos(a),
        numero(a) <= usize::MAX,
    ensures
        fabricar_paso('{', pasos, a + seq!['}'] + r) == (Analisis::Listo {
            pasos: pasos.update(
                pasos.len() - 1,
                PasoV { caracter: pasos.last().caracter, repeticion: Repeticion::Exacta(numero(a) as usize, false) },
            ),
            resto: r,
        }),
{
    lema_leer_llave_digitos(a, r, seq![], seq![]);
    assert(seq![] + a =~= a);
    ley_llaves(a, a, true);
}

/// `{...}`: sets the repetition of the last step, which must not be the leading
/// `.*`. Without a previous step the brace is skipped, and its contents are read
/// as they come.
pub open spec fn paso_llave(pasos: Seq<PasoV>, resto: Seq<char>) -> Analisis {
    if pasos.len() == 0 {
        Analisis::Listo { pasos, resto }
    } else if no_hay_anterior(pasos.last()) {
        Analisis::Falla { error: Error::ErrorEnRepeticion, pasos, resto }
    } else {
        match leer_llave(resto, seq![], seq![]) {
            LecturaLlave::NoDigito { resto: r } => Analisis::Falla {
                error: Error::ErrorEnLlaves,
                pasos,
                resto: r,
            },
            LecturaLlave::Leida { contenido, resto: r, .. } => match decidir_llave(contenido, true) {
                DecisionLlave::Rep(rep) => Analisis::Listo {
                    pasos: con_repeticion(pasos, rep),
                    resto: r,
                },
                DecisionLlave::Invalida => Analisis::Falla {
                    error: Error::ErrorEnLlaves,
                    pasos,
                    resto: r,
                },
            },
        }
    }
}

/// What is read after `[`.
pub struct LecturaCorchete {
    pub aux: Seq<char>,
    pub hay_clase: bool,
    pub negado: bool,
    pub resto: Seq<char>,
}

/// Reads up to the `]` that closes the bracket (the second `]` once a `[` has
/// been seen): `^` negates, `[` marks a named class, `:` is skipped, and the other
/// characters are kept.
pub open spec fn leer_corchete(
    resto: Seq<char>,
    cantidad: nat,
    hay_clase: bool,
    negado: bool,
    aux: Seq<char>,
) -> LecturaCorchete
    decreases resto.len(),
{
    if resto.len() == 0 {
        LecturaCorchete { aux, hay_clase, negado, resto }
    } else {
        let c = resto[0];
        let r = resto.drop_first();
        if c == ']' && (cantidad == 2 || !hay_clase) {
            LecturaCorchete { aux, hay_clase, negado, resto: r }
        } else if c == ']' {
            leer_corchete(r, cantidad + 1, hay_clase, negado, aux)
        } else if c == '^' {
            leer_corchete(r, cantidad, hay_clase, true, aux)
        } else if c == ':' {
            leer_corchete(r, cantidad, hay_clase, negado, aux)
        } else if c == '[' {
            leer_corchete(r, cantidad, true, negado, aux)
        } else {
            leer_corchete(r, cantidad, hay_clase, negado, aux.push(c))
        }
    }
}

/// The POSIX class that a name stands for.
pub open spec fn clase_nombrada(nombre: Seq<char>, negado: bool) -> Option<ClaseCharV> {
    if nombre == seq!['a', 'l', 'p', 'h', 'a'] {
        Some(ClaseCharV::Alpha(negado))
    } else if nombre == seq!['a', 'l', 'n', 'u', 'm'] {
        Some(ClaseCharV::Alnum(negado))
    } else if nombre == seq!['d', 'i', 'g', 'i', 't'] {
        Some(ClaseCharV::Digit(negado))
    } else if nombre == seq!['l', 'o', 'w', 'e', 'r'] {
        Some(ClaseCharV::Lower(negado))
    } else if nombre == seq!['u', 'p', 'p', 'e', 'r'] {
        Some(ClaseCharV::Upper(negado))
    } else if nombre == seq!['s', 'p', 'a', 'c', 'e'] {
        Some(ClaseCharV::Space(negado))
    } else if nombre == seq!['p', 'u', 'n', 'c', 't'] {
        Some(ClaseCharV::Punct(negado))
    } else {
        None
    }
}

/// Whether position `i` of a bracket's contents puts `c` in the set: a `-` puts
/// in the characters from its left neighbour to its right neighbour (when it has
/// both), any other character puts in itself.
pub open spec fn aporta(aux: Seq<char>, i: int, c: char) -> bool {
    if aux[i] == '-' {
        1 <= i && i + 1 < aux.len() && aux[i - 1] <= c && c <= aux[i + 1]
    } else {
        aux[i] == c
    }
}

/// The set of characters that a bracket's contents stand for.
pub open spec fn contenido_corchete(aux: Seq<char>) -> Set<char> {
    Set::new(|c: char| exists|i: int| 0 <= i < aux.len() && #[trigger] aporta(aux, i, c))
}

/// The class that a bracket stands for (a named class where it spells one, the
/// set of its contents otherwise).
pub open spec fn clase_de_corchete(l: LecturaCorchete) -> Option<ClaseCharV> {
    if l.hay_clase && clase_nombrada(l.aux, l.negado) is Some {
        clase_nombrada(l.aux, l.negado)
    } else {
        Some(ClaseCharV::Simple(contenido_corchete(l.aux), l.negado))
    }
}

/// `[...]`: adds a step that matches the class once.
pub open spec fn paso_corchete(pasos: Seq<PasoV>, resto: Seq<char>) -> Analisis {
    let l = leer_corchete(resto, 1, false, false, seq![]);
    match clase_de_corchete(l) {
        Some(clase) => Analisis::Listo {
            pasos: pasos.push(paso_unitario(CaracterV::Serie(clase))),
            resto: l.resto,
        },
        None => Analisis::Aborta,
    }
}

/// `?`, `*`, `+`: sets the repetition of the last step, which must not be the
/// leading `.*`.
pub open spec fn paso_repeticion(pasos: Seq<PasoV>, resto: Seq<char>, rep: Repeticion) -> Analisis {
    if pasos.len() == 0 {
        Analisis::Listo { pasos, resto }
    } else if no_hay_anterior(pasos.last()) {
        Analisis::Falla { error: Error::ErrorEnRepeticion, pasos, resto }
    } else {
        Analisis::Listo { pasos: con_repeticion(pasos, rep), resto }
    }
}

/// `\\`: adds a step that matches the next character literally; with nothing
/// after it, the expression is refused.
pub open spec fn paso_escapado(pasos: Seq<PasoV>, resto: Seq<char>) -> Analisis {
    if resto.len() == 0 {
        Analisis::Falla { error: Error::CaracterNoProcesable, pasos, resto }
    } else {
        Analisis::Listo { pasos: pasos.push(paso_unitario(CaracterV::Literal(resto[0]))), resto: resto.drop_first() }
    }
}

/// What one character `c` of the expression does to the steps read so far.
pub open spec fn fabricar_paso(c: char, pasos: Seq<PasoV>, resto: Seq<char>) -> Analisis {
    if c == '.' {
        Analisis::Listo { pasos: pasos.push(paso_unitario(CaracterV::Comodin)), resto }
    } else if es_literal_simple(c) {
        Analisis::Listo { pasos: pasos.push(paso_unitario(CaracterV::Literal(c))), resto }
    } else if c == '{' {
        paso_llave(pasos, resto)
    } else if c == '[' {
        paso_corchete(pasos, resto)
    } else if c == '?' {
        paso_repeticion(pasos, resto, Repeticion::Rango { min: Some(0), max: Some(1) })
    } else if c == '*' {
        paso_repeticion(pasos, resto, Repeticion::Alguna(false))
    } else if c == '+' {
        paso_repeticion(pasos, resto, Repeticion::Rango { min: Some(1), max: None })
    } else if c == '\\' {
        paso_escapado(pasos, resto)
    } else if c == '$' {
        Analisis::Listo { pasos: pasos.push(paso_unitario(CaracterV::Dolar)), resto }
    } else if c == '^' || c == '|' {
        Analisis::Listo { pasos, resto }
    } else {
        Analisis::Falla { error: Error::CaracterNoProcesable, pasos, resto }
    }
}

pub proof fn lema_leer_llave_consume(resto: Seq<char>, contenido: Seq<char>, rangos: Seq<usize>)
    ensures
        match leer_llave(resto, contenido, rangos) {
            LecturaLlave::Leida { resto: r, .. } => r.len() <= resto.len(),
            LecturaLlave::NoDigito { resto: r } => r.len() <= resto.len(),
        },
    decreases resto.len(),
{
    if resto.len() > 0 {
        let c = resto[0];
        if c == ',' {
            lema_leer_llave_consume(resto.drop_first(), contenido.push(c), rangos);
        } else if c != '}' && es_ascii_digito(c) {
            lema_leer_llave_consume(
                resto.drop_first(),
                contenido.push(c),
                rangos.push(valor_digito(c) as usize),
            );
        }
    }
}

pub proof fn lema_leer_corchete_consume(
    resto: Seq<char>,
    cantidad: nat,
    hay_clase: bool,
    negado: bool,
    aux: Seq<char>,
)
    ensures
        leer_corchete(resto, cantidad, hay_clase, negado, aux).resto.len() <= resto.len(),
    decreases resto.len(),
{
    if resto.len() > 0 {
        let c = resto[0];
        let r = resto.drop_first();
        if c == ']' && (cantidad == 2 || !hay_clase) {
        } else if c == ']' {
            lema_leer_corchete_consume(r, cantidad + 1, hay_clase, negado, aux);
        } else if c == '^' {
            lema_leer_corchete_consume(r, cantidad, hay_clase, true, aux);
        } else if c == ':' {
            lema_leer_corchete_consume(r, cantidad, hay_clase, negado, aux);
        } else if c == '[' {
            lema_leer_corchete_consume(r, cantidad, true, negado, aux);
        } else {
            lema_leer_corchete_consume(r, cantidad, hay_clase, negado, aux.push(c));
        }
    }
}

/// Reading a character never gives back characters already read.
pub proof fn lema_fabricar_consume(c: char, pasos: Seq<PasoV>, resto: Seq<char>)
    ensures
        fabricar_paso(c, pasos, resto) matches Analisis::Listo { resto: r, .. } ==> r.len()
            <= resto.len(),
{
    lema_leer_llave_consume(resto, seq![], seq![]);
    lema_leer_corchete_consume(resto, 1, false, false, seq![]);
}

/// Reads the rest of an expression, step by step.
pub open spec fn analizar(pasos: Seq<PasoV>, resto: Seq<char>) -> Analisis
    decreases resto.len(),
{
    if resto.len() == 0 {
        Analisis::Listo { pasos, resto }
    } else {
        match fabricar_paso(resto[0], pasos, resto.drop_first()) {
            Analisis::Listo { pasos: p, resto: r } => {
                proof {
                    lema_fabricar_consume(resto[0], pasos, resto.drop_first());
                }
                analizar(p, r)
            },
            otro => otro,
        }
    }
}

/// No character makes the reading panic: each gives steps or an error.
pub proof fn lema_fabricar_no_aborta(c: char, pasos: Seq<PasoV>, resto: Seq<char>)
    ensures
        !(fabricar_paso(c, pasos, resto) is Aborta),
{
}

/// Reading an expression never panics: it ends with steps or with an error.
pub proof fn lema_analizar_no_aborta(pasos: Seq<PasoV>, resto: Seq<char>)
    ensures
        !(analizar(pasos, resto) is Aborta),
    decreases resto.len(),
{
    if resto.len() > 0 {
        let c = resto[0];
        let r = resto.drop_first();
        lema_fabricar_no_aborta(c, pasos, r);
        match fabricar_paso(c, pasos, r) {
            Analisis::Listo { pasos: p, resto: r2 } => {
                lema_fabricar_consume(c, pasos, r);
                lema_analizar_no_aborta(p, r2);
            },
            _ => {},
        }
    }
}

/// The repetition that `?`, `*` or `+` gives.
pub open spec fn repeticion_de(c: char) -> Repeticion {
    if c == '?' {
        Repeticion::Rango { min: Some(0), max: Some(1) }
    } else if c == '*' {
        Repeticion::Alguna(false)
    } else {
        Repeticion::Rango { min: Some(1), max: None }
    }
}

/// `?`, `*` and `+` after a step change only its repetition: the other steps and
/// the characters left stay as they were, and the last step keeps its unit. After
/// the leading `.*` (nothing to repeat) the expression is refused, and the steps
/// stay as they were.
pub proof fn ley_paso_repetido(c: char, pasos: Seq<PasoV>, resto: Seq<char>)
    requires
        c == '?' || c == '*' || c == '+',
        pasos.len() > 0,
    ensures
        no_hay_anterior(pasos.last()) ==> fabricar_paso(c, pasos, resto) == (Analisis::Falla {
            error: Error::ErrorEnRepeticion,
            pasos,
            resto,
        }),
        !no_hay_anterior(pasos.last()) ==> (fabricar_paso(c, pasos, resto) matches Analisis::Listo {
            pasos: p,
            resto: r,
        } && r == resto && p.len() == pasos.len() && p.drop_last() == pasos.drop_last() && p.last() == (
        PasoV { caracter: pasos.last().caracter, repeticion: repeticion_de(c) })),
{
    if !no_hay_anterior(pasos.last()) {
        let p = con_repeticion(pasos, repeticion_de(c));
        assert(p.drop_last() =~= pasos.drop_last());
    }
}

/// `^` and `|` leave the steps and the characters left as they were; a character
/// that means nothing in an expression is refused, leaving them as they were.
pub proof fn ley_paso_neutro(c: char, pasos: Seq<PasoV>, resto: Seq<char>)
    ensures
        (c == '^' || c == '|') ==> fabricar_paso(c, pasos, resto) == (Analisis::Listo { pasos, resto }),
        !(es_literal_simple(c) || c == '.' || c == '{' || c == '[' || c == '?' || c == '*' || c == '+'
            || c == '\\' || c == '$' || c == '^' || c == '|') ==> fabricar_paso(c, pasos, resto) == (
        Analisis::Falla { error: Error::CaracterNoProcesable, pasos, resto }),
{
}

/// ASCII letters, ASCII digits and the space stand for themselves: each reads into
/// one new step that matches that very character once, and nothing else changes.
pub proof fn ley_paso_literal(c: char, pasos: Seq<PasoV>, resto: Seq<char>)
    requires
        ('a' <= c && c <= 'z') || ('A' <= c && c <= 'Z') || ('0' <= c && c <= '9') || c == ' ',
    ensures
        fabricar_paso(c, pasos, resto) == (Analisis::Listo {
            pasos: pasos.push(PasoV { caracter: CaracterV::Literal(c), repeticion: Repeticion::Exacta(1, false) }),
            resto,
        }),
{
}

/// A backslash makes the character after it stand for itself, whatever it is
/// (`\.` is a dot, `\*` a star): it reads into one new step that matches that
/// character once, and that character is used up.
pub proof fn ley_paso_escapado(pasos: Seq<PasoV>, resto: Seq<char>)
    requires
        resto.len() > 0,
    ensures
        fabricar_paso('\\', pasos, resto) == (Analisis::Listo {
            pasos: pasos.push(
                PasoV { caracter: CaracterV::Literal(resto[0]), repeticion: Repeticion::Exacta(1, false) },
            ),
            resto: resto.drop_first(),
        }),
{
}

/// Steps that keep those of `antes`: at least as many, with the same units, and
/// with the same repetitions but for the last one.
pub open spec fn conserva(antes: Seq<PasoV>, despues: Seq<PasoV>) -> bool {
    &&& despues.len() >= antes.len()
    &&& forall|i: int| 0 <= i < antes.len() ==> (#[trigger] despues[i]).caracter == antes[i].caracter
    &&& forall|i: int| 0 <= i < antes.len() - 1 ==> #[trigger] despues[i] == antes[i]
}

proof fn lema_push_conserva(pasos: Seq<PasoV>, x: PasoV)
    ensures
        conserva(pasos, pasos.push(x)),
{
    assert forall|i: int| 0 <= i < pasos.len() implies #[trigger] pasos.push(x)[i] == pasos[i] by {}
}

proof fn lema_con_repeticion_conserva(pasos: Seq<PasoV>, r: Repeticion)
    requires
        pasos.len() > 0,
    ensures
        conserva(pasos, con_repeticion(pasos, r)),
{
    let p = con_repeticion(pasos, r);
    assert forall|i: int| 0 <= i < pasos.len() implies (#[trigger] p[i]).caracter == pasos[i].caracter by {}
    assert forall|i: int| 0 <= i < pasos.len() - 1 implies #[trigger] p[i] == pasos[i] by {}
}

/// An escaped character is pushed as a new step.
proof fn lema_escapado_conserva(pasos: Seq<PasoV>, resto: Seq<char>, d: char)
    requires
        resto.len() > 0,
        d == resto[0],
    ensures
        paso_escapado(pasos, resto) is Listo,
        conserva(pasos, paso_escapado(pasos, resto)->Listo_pasos),
{
    lema_push_conserva(pasos, paso_unitario(CaracterV::Literal(d)));
}

/// One character of the expression keeps the steps read before it.
pub proof fn lema_fabricar_conserva(c: char, pasos: Seq<PasoV>, resto: Seq<char>)
    ensures
        fabricar_paso(c, pasos, resto) is Listo ==> conserva(
            pasos,
            fabricar_paso(c, pasos, resto)->Listo_pasos,
        ),
{
    assert(conserva(pasos, pasos));
    if c == '.' {
        lema_push_conserva(pasos, paso_unitario(CaracterV::Comodin));
    } else if es_literal_simple(c) {
        lema_push_conserva(pasos, paso_unitario(CaracterV::Literal(c)));
    } else if c == '{' {
        if pasos.len() > 0 {
            match leer_llave(resto, seq![], seq![]) {
                LecturaLlave::Leida { contenido, .. } => {
                    match decidir_llave(contenido, true) {
                        DecisionLlave::Rep(r) => {
                            lema_con_repeticion_conserva(pasos, r);
                        },
                        _ => {},
                    }
                },
                _ => {},
            }
        }
    } else if c == '[' {
        let l = leer_corchete(resto, 1, false, false, seq![]);
        match clase_de_corchete(l) {
            Some(k) => {
                lema_push_conserva(pasos, paso_unitario(CaracterV::Serie(k)));
            },
            None => {},
        }
    } else if c == '?' || c == '*' || c == '+' {
        if pasos.len() > 0 {
            lema_con_repeticion_conserva(pasos, Repeticion::Rango { min: Some(0), max: Some(1) });
            lema_con_repeticion_conserva(pasos, Repeticion::Alguna(false));
            lema_con_repeticion_conserva(pasos, Repeticion::Rango { min: Some(1), max: None });
        }
    } else if c == '\\' {
        if resto.len() > 0 {
            lema_escapado_conserva(pasos, resto, resto[0]);
        }
    } else if c == '$' {
        lema_push_conserva(pasos, paso_unitario(CaracterV::Dolar));
    }
}

/// Reading the rest of an expression keeps the steps read before: their units,
/// and the repetitions of all but the last; and a read that finishes has used up
/// all the characters.
pub proof fn ley_lectura_conserva(pasos: Seq<PasoV>, resto: Seq<char>)
    ensures
        analizar(pasos, resto) matches Analisis::Listo { pasos: p, resto: r } ==> r.len() == 0
            && conserva(pasos, p),
    decreases resto.len(),
{
    if resto.len() > 0 {
        let c = resto[0];
        let r = resto.drop_first();
        lema_fabricar_conserva(c, pasos, r);
        match fabricar_paso(c, pasos, r) {
            Analisis::Listo { pasos: p2, resto: r2 } => {
                assert(conserva(pasos, p2));
                lema_fabricar_consume(c, pasos, r);
                ley_lectura_conserva(p2, r2);
                match analizar(p2, r2) {
                    Analisis::Listo { pasos: p, .. } => {
                        assert forall|i: int| 0 <= i < pasos.len() implies (#[trigger] p[i]).caracter
                            == pasos[i].caracter by {
                            assert(p[i].caracter == p2[i].caracter);
                        }
                        assert forall|i: int| 0 <= i < pasos.len() - 1 implies #[trigger] p[i]
                            == pasos[i] by {
                            assert(p[i] == p2[i]);
                        }
                    },
                    _ => {},
                }
            },
            _ => {},
        }
    }
}

/// The steps an expression starts with: `.*` unless it starts with `^`.
pub open spec fn pasos_iniciales(e: Seq<char>) -> Seq<PasoV> {
    if e.len() > 0 && e[0] == '^' {
        seq![]
    } else {
        seq![comodin_inicial()]
    }
}

/// What reading a whole expression gives.
pub open spec fn analizar_expresion(e: Seq<char>) -> Analisis {
    analizar(pasos_iniciales(e), e)
}

/// The outcome of checking how an expression is written.
pub enum Revision {
    Correcta,
    Incorrecta(Error),
    Aborta,
}

/// Checks that braces and brackets open before they close and are all closed,
/// and that no `|` stands inside them; `llaves` and `corchetes` count the open
/// ones so far (a count that leaves the range of `i32` panics).
pub open spec fn revisar(e: Seq<char>, llaves: int, corchetes: int) -> Revision
    decreases e.len(),
{
    if e.len() == 0 {
        if llaves != 0 {
            Revision::Incorrecta(Error::ErrorEnLlaves)
        } else if corchetes != 0 {
            Revision::Incorrecta(Error::ErrorEnCorchetes)
        } else {
            Revision::Correcta
        }
    } else {
        let c = e[0];
        let r = e.drop_first();
        if c == '{' {
            if llaves + 1 > i32::MAX { Revision::Aborta } else { revisar(r, llaves + 1, corchetes) }
        } else if c == '}' {
            if llaves <= 0 { Revision::Incorrecta(Error::ErrorEnLlaves) } else { revisar(r, llaves - 1, corchetes) }
        } else if c == '[' {
            if corchetes + 1 > i32::MAX { Revision::Aborta } else { revisar(r, llaves, corchetes + 1) }
        } else if c == ']' {
            if corchetes <= 0 { Revision::Incorrecta(Error::ErrorEnCorchetes) } else { revisar(r, llaves, corchetes - 1) }
        } else if c == '|' {
            if llaves != 0 || corchetes != 0 {
                Revision::Incorrecta(Error::ErrorEnFuncionOR)
            } else {
                revisar(r, llaves, corchetes)
            }
        } else {
            revisar(r, llaves, corchetes)
        }
    }
}

/// How many times `c` occurs in `s`.
pub open spec fn cuenta(s: Seq<char>, c: char) -> int
    decreases s.len(),
{
    if s.len() == 0 {
        0
    } else {
        (if s[0] == c {
            1int
        } else {
            0int
        }) + cuenta(s.drop_first(), c)
    }
}

/// Braces opened and not closed in `s`.
pub open spec fn llaves_abiertas(s: Seq<char>) -> int {
    cuenta(s, '{') - cuenta(s, '}')
}

/// Brackets opened and not closed in `s`.
pub open spec fn corchetes_abiertos(s: Seq<char>) -> int {
    cuenta(s, '[') - cuenta(s, ']')
}

/// How an expression that starts with `llaves` braces and `corchetes` brackets
/// open is well written: no prefix closes more than it opened, all are closed at
/// the end, and every `|` stands where none is open.
pub open spec fn bien_escrita(e: Seq<char>, llaves: int, corchetes: int) -> bool {
    &&& forall|k: int|
        0 <= k <= e.len() ==> llaves + llaves_abiertas(#[trigger] e.take(k)) >= 0 && corchetes
            + corchetes_abiertos(e.take(k)) >= 0
    &&& llaves + llaves_abiertas(e) == 0
    &&& corchetes + corchetes_abiertos(e) == 0
    &&& forall|k: int|
        0 <= k < e.len() && #[trigger] e[k] == '|' ==> llaves + llaves_abiertas(e.take(k)) == 0
            && corchetes + corchetes_abiertos(e.take(k)) == 0
}

proof fn lema_cuenta_take(e: Seq<char>, c: char, k: int)
    requires
        0 <= k < e.len(),
    ensures
        cuenta(e.take(k + 1), c) == (if e[0] == c {
            1int
        } else {
            0int
        }) + cuenta(e.drop_first().take(k), c),
{
    assert(e.take(k + 1).drop_first() =~= e.drop_first().take(k));
}

/// Checking how an expression is written (where it does not panic) finds it well
/// written exactly when no prefix closes a brace or bracket more than it opened,
/// all are closed at the end, and no `|` stands inside braces or brackets.
pub proof fn ley_revisar(e: Seq<char>, llaves: int, corchetes: int)
    requires
        llaves >= 0,
        corchetes >= 0,
        !(revisar(e, llaves, corchetes) is Aborta),
    ensures
        (revisar(e, llaves, corchetes) is Correcta) == bien_escrita(e, llaves, corchetes),
    decreases e.len(),
{
    assert(e.take(0) =~= Seq::<char>::empty());
    if e.len() == 0 {
        assert(e =~= e.take(0));
        assert forall|k: int| 0 <= k <= e.len() implies llaves + llaves_abiertas(#[trigger] e.take(k)) >= 0
            && corchetes + corchetes_abiertos(e.take(k)) >= 0 by {
            assert(e.take(k) =~= Seq::<char>::empty());
        }
    } else {
        let x = e[0];
        let r = e.drop_first();
        let dl: int = if x == '{' { 1 } else if x == '}' { -1 } else { 0 };
        let dc: int = if x == '[' { 1 } else if x == ']' { -1 } else { 0 };
        assert forall|k: int| 0 <= k < e.len() implies llaves_abiertas(#[trigger] e.take(k + 1)) == dl
            + llaves_abiertas(r.take(k)) && corchetes_abiertos(e.take(k + 1)) == dc + corchetes_abiertos(r.take(k)) by {
            lema_cuenta_take(e, '{', k);
            lema_cuenta_take(e, '}', k);
            lema_cuenta_take(e, '[', k);
            lema_cuenta_take(e, ']', k);
        }
        assert(e.take(e.len() as int) =~= e);
        assert(r.take(r.len() as int) =~= r);
        let l2 = llaves + dl;
        let c2 = corchetes + dc;
        let sigue_bien = l2 >= 0 && c2 >= 0 && (x == '|' ==> llaves == 0 && corchetes == 0);
        if sigue_bien {
            assert(revisar(e, llaves, corchetes) == revisar(r, l2, c2));
            ley_revisar(r, l2, c2);
            if bien_escrita(r, l2, c2) {
                assert forall|k: int| 0 <= k <= e.len() implies llaves + llaves_abiertas(#[trigger] e.take(k)) >= 0
                    && corchetes + corchetes_abiertos(e.take(k)) >= 0 by {
                    if k > 0 {
                        let j = k - 1;
                        assert(llaves_abiertas(e.take(j + 1)) == dl + llaves_abiertas(r.take(j)));
                        assert(l2 + llaves_abiertas(r.take(j)) >= 0);
                    } else {
                        assert(e.take(k) =~= Seq::<char>::empty());
                    }
                }
                assert forall|k: int| 0 <= k < e.len() && #[trigger] e[k] == '|' implies llaves + llaves_abiertas(
                    e.take(k),
                ) == 0 && corchetes + corchetes_abiertos(e.take(k)) == 0 by {
                    if k > 0 {
                        let j = k - 1;
                        assert(r[j] == e[k]);
                        assert(llaves_abiertas(e.take(j + 1)) == dl + llaves_abiertas(r.take(j)));
                        assert(l2 + llaves_abiertas(r.take(j)) == 0);
                    } else {
                        assert(e.take(k) =~= Seq::<char>::empty());
                    }
                }
                assert(llaves_abiertas(e.take(e.len() as int)) == dl + llaves_abiertas(r.take(r.len() as int)));
            }
            if bien_escrita(e, llaves, corchetes) {
                assert forall|k: int| 0 <= k <= r.len() implies l2 + llaves_abiertas(#[trigger] r.take(k)) >= 0
                    && c2 + corchetes_abiertos(r.take(k)) >= 0 by {
                    assert(llaves + llaves_abiertas(e.take(k + 1)) >= 0);
                }
                assert forall|k: int| 0 <= k < r.len() && #[trigger] r[k] == '|' implies l2 + llaves_abiertas(
                    r.take(k),
                ) == 0 && c2 + corchetes_abiertos(r.take(k)) == 0 by {
                    assert(e[k + 1] == r[k]);
                    assert(llaves + llaves_abiertas(e.take(k + 1)) == 0);
                }
                assert(llaves_abiertas(e.take(e.len() as int)) == dl + llaves_abiertas(r.take(r.len() as int)));
            }
        } else {
            assert(revisar(e, llaves, corchetes) is Incorrecta);
            assert(!bien_escrita(e, llaves, corchetes)) by {
                if x == '|' && !(llaves == 0 && corchetes == 0) {
                    assert(e[0] == '|');
                } else {
                    assert(llaves_abiertas(e.take(1)) == dl + llaves_abiertas(r.take(0)));
                    assert(r.take(0) =~= Seq::<char>::empty());
                }
            }
        }
    }
}

/// The position of the first `|` in `s` (its length when there is none).
pub open spec fn primer_barra(s: Seq<char>) -> nat
    decreases s.len(),
{
    if s.len() == 0 {
        0
    } else if s[0] == '|' {
        0
    } else {
        1 + primer_barra(s.drop_first())
    }
}

/// The alternatives of an expression: its parts between `|`.
pub open spec fn partes(s: Seq<char>) -> Seq<Seq<char>>
    decreases s.len(),
{
    if primer_barra(s) >= s.len() {
        seq![s]
    } else {
        proof {
            lema_primer_barra(s);
        }
        seq![s.take(primer_barra(s) as int)] + partes(s.skip(primer_barra(s) as int + 1))
    }
}

pub proof fn lema_primer_barra(s: Seq<char>)
    ensures
        primer_barra(s) <= s.len(),
        primer_barra(s) < s.len() ==> s[primer_barra(s) as int] == '|',
        forall|i: int| 0 <= i < primer_barra(s) ==> s[i] != '|',
    decreases s.len(),
{
    if s.len() > 0 && s[0] != '|' {
        lema_primer_barra(s.drop_first());
        assert forall|i: int| 0 <= i < primer_barra(s) implies s[i] != '|' by {
            if i > 0 {
                assert(s[i] == s.drop_first()[i - 1]);
            }
        }
    }
}

} // verus!

