//! Regular expressions: reading an expression into steps, and matching a line of
//! text against them by backtracking.
use vstd::prelude::*;
use crate::analisis::{
    Analisis, DecisionLlave, LecturaCorchete, LecturaLlave, cota, decidir_llave, leer_corchete,
    leer_llave, lema_analizar_no_aborta, lema_primera_coma, numero, primera_coma, clase_nombrada,
    clase_de_corchete, contenido_corchete, aporta, paso_unitario,
    no_hay_anterior as spec_no_hay_anterior, con_repeticion, paso_llave, paso_repeticion,
    fabricar_paso, analizar, pasos_iniciales, analizar_expresion, Revision, revisar,
    primer_barra, lema_primer_barra,
};
use crate::caracter::{Caracter, CaracterV};
use crate::clase_char::ClaseChar;
use crate::errors::Error;
use crate::lector::Lector;
use crate::paso_regex::{PasoRegex, PasoV, vista_pasos};
use crate::repeticion::Repeticion;
use crate::texto::{digito, misma_palabra, es_escalar, es_ascii_digito};
use crate::casa::{
    acepta, casa_desde, cuenta_valida, desde_tras, evaluar_alternativas, hay_coincidencia, lema_desde_paso,
    lema_desde_vacio, lema_tras_corrida, lema_tras_dolar, lema_tras_unidad, ley_busqueda_general, sigue,
    valida_general,
};
use crate::caracter::admite;
use vstd::string::StringSliceAdditionalSpecFns;

verus! {

broadcast use vstd::string::group_string_axioms;

///Caracteres especiales que se utilizan en las expresiones regulares.
const CORCHETE_ABIERTO: char = '[';
const CORCHETE_CERRADO: char = ']';
const LLAVE_ABIERTA: char = '{';
const LLAVE_CERRADA: char = '}';
const ASTERISCO: char = '*';
const INTERROGACION: char = '?';
const MAS: char = '+';
const PUNTO: char = '.';
const BARRA: char = '\\';
const DOLAR: char = '$';
const CARET: char = '^';
const INDICADOR_CLASE: char = ':';
const SEPARADOR_RANGO: char = '-';
const FUNCION_OR: char = '|';

/// A regular expression that can be matched against a line of text: the steps
/// that the line has to go through.
pub struct Regex {
    pasos: Vec<PasoRegex>,
}

impl View for Regex {
    type V = Seq<PasoV>;

    closed spec fn view(&self) -> Seq<PasoV> {
        vista_pasos(self.pasos@)
    }
}

/// Whether an exec result of reading one character agrees with the outcome
/// `esperado`, from the steps `antes`: a new step is returned only where the
/// steps were left as they were and the outcome adds it; otherwise the steps are
/// those of the outcome; and the characters left are those of the outcome.
pub open spec fn cumple_fabricar(
    res: Result<Option<PasoRegex>, Error>,
    antes: Seq<PasoV>,
    pasos: Seq<PasoV>,
    resto: Seq<char>,
    esperado: Analisis,
) -> bool {
    match esperado {
        Analisis::Listo { pasos: p, resto: r } => {
            &&& resto == r
            &&& match res {
                Ok(Some(paso)) => pasos == antes && antes.push(paso@) == p,
                Ok(None) => pasos == p,
                Err(_) => false,
            }
        },
        Analisis::Falla { error, pasos: p, resto: r } => {
            &&& res == Err::<Option<PasoRegex>, Error>(error)
            &&& pasos == p
            &&& resto == r
        },
        Analisis::Aborta => false,
    }
}

proof fn lema_vista_push(v: Seq<PasoRegex>, p: PasoRegex)
    ensures
        vista_pasos(v.push(p)) == vista_pasos(v).push(p@),
{
    assert(vista_pasos(v.push(p)) =~= vista_pasos(v).push(p@));
}

///Obtiene el contenido de un corchete, si es que lo hay.
pub(crate) fn obtener_auxiliar(chars_iter: &mut Lector) -> (r: (Vec<char>, bool, bool))
    ensures
        ({
            let l = leer_corchete(old(chars_iter).restantes(), 1, false, false, seq![]);
            &&& r.0@ == l.aux
            &&& r.1 == l.hay_clase
            &&& r.2 == l.negado
            &&& final(chars_iter).restantes() == l.resto
        }),
{
    let mut cantidad_corchetes: u8 = 1;
    let mut hay_clase = false;
    let mut es_negado = false;
    let mut auxiliar: Vec<char> = Vec::new();
    let ghost inicio = chars_iter.restantes();

    loop
        invariant_except_break
            leer_corchete(chars_iter.restantes(), cantidad_corchetes as nat, hay_clase, es_negado, auxiliar@)
                == leer_corchete(inicio, 1, false, false, seq![]),
        invariant
            1 <= cantidad_corchetes <= 2,
        ensures
            leer_corchete(inicio, 1, false, false, seq![]) == (LecturaCorchete {
                aux: auxiliar@,
                hay_clase,
                negado: es_negado,
                resto: chars_iter.restantes(),
            }),
        decreases chars_iter.restantes().len(),
    {
        let c = match chars_iter.siguiente() {
            Some(c) => c,
            None => break,
        };
        if c == CORCHETE_CERRADO && (cantidad_corchetes == 2 || !hay_clase) {
            break;
        } else if c == CORCHETE_CERRADO {
            cantidad_corchetes = cantidad_corchetes + 1;
        } else if c == CARET {
            es_negado = true;
        } else if c == INDICADOR_CLASE {
            continue;
        } else if c == CORCHETE_ABIERTO {
            hay_clase = true;
        } else {
            auxiliar.push(c);
        }
    }

    (auxiliar, hay_clase, es_negado)
}

/// Adds to `contenido` every character from `inicio` to `fin`.
fn agregar_rango(contenido: &mut Vec<char>, inicio: char, fin: char)
    ensures
        forall|c: char|
            #![trigger final(contenido)@.contains(c)]
            final(contenido)@.contains(c) <==> (old(contenido)@.contains(c) || (inicio <= c
                && c <= fin)),
{
    if inicio > fin {
        return;
    }
    let ultimo: u32 = fin as u32;
    let mut x: u32 = inicio as u32;
    while x <= ultimo
        invariant
            inicio as u32 <= x <= ultimo + 1,
            ultimo == fin as u32,
            ultimo <= 0x10FFFF,
            forall|c: char|
                #![trigger contenido@.contains(c)]
                contenido@.contains(c) <==> (old(contenido)@.contains(c) || (inicio <= c
                    && (c as int) < x)),
        decreases ultimo + 1 - x,
    {
        let ghost anterior = contenido@;
        let siguiente = core::char::from_u32(x);
        match siguiente {
            Some(c) => {
                assert(c as int == x as int);
                contenido.push(c);
                assert forall|d: char|
                    #![trigger contenido@.contains(d)]
                    contenido@.contains(d) <==> (old(contenido)@.contains(d) || (inicio <= d
                        && (d as int) < x + 1)) by {
                    if d == c {
                        assert(contenido@[contenido@.len() - 1] == d);
                    } else {
                        if contenido@.contains(d) {
                            let k = choose|k: int| 0 <= k < contenido@.len() && contenido@[k] == d;
                            assert(anterior[k] == d);
                            assert(anterior.contains(d));
                        }
                        if anterior.contains(d) {
                            let k = choose|k: int| 0 <= k < anterior.len() && anterior[k] == d;
                            assert(contenido@[k] == d);
                        }
                        if old(contenido)@.contains(d) || (inicio <= d && (d as int) < x) {
                            assert(anterior.contains(d));
                        }
                    }
                }
            },
            None => {
                assert(!es_escalar(x));
                assert forall|d: char|
                    #![trigger contenido@.contains(d)]
                    contenido@.contains(d) <==> (old(contenido)@.contains(d) || (inicio <= d
                        && (d as int) < x + 1)) by {
                    crate::texto::lema_caracter_escalar(d);
                }
            },
        }
        x = x + 1;
    }
}

/// The characters that a bracket's contents stand for: each character, and for
/// each `-` the characters from its left neighbour to its right neighbour.
pub(crate) fn construir_contenido(auxiliar: &Vec<char>) -> (v: Vec<char>)
    requires
    ensures
        v@.to_set() == contenido_corchete(auxiliar@),
{
    let mut contenido: Vec<char> = Vec::new();
    let n = auxiliar.len();

    for i in 0..n
        invariant
            n == auxiliar.len(),
                forall|c: char|
                #![trigger contenido@.contains(c)]
                contenido@.contains(c) <==> exists|j: int| 0 <= j < i && #[trigger] aporta(auxiliar@, j, c),
    {
        let ghost anterior = contenido@;
        if auxiliar[i] == SEPARADOR_RANGO {
            if 1 <= i && i + 1 < n {
                let inicio = auxiliar[i - 1];
                let fin = auxiliar[i + 1];
                agregar_rango(&mut contenido, inicio, fin);
            }
            assert forall|c: char| contenido@.contains(c) <==> exists|j: int|
                0 <= j < i + 1 && #[trigger] aporta(auxiliar@, j, c) by {
                if contenido@.contains(c) && !anterior.contains(c) {
                    assert(aporta(auxiliar@, i as int, c));
                }
                if exists|j: int| 0 <= j < i + 1 && #[trigger] aporta(auxiliar@, j, c) {
                    let j = choose|j: int| 0 <= j < i + 1 && #[trigger] aporta(auxiliar@, j, c);
                    if j < i {
                        assert(anterior.contains(c));
                    }
                }
            }
        } else {
            contenido.push(auxiliar[i]);
            assert forall|c: char| contenido@.contains(c) <==> exists|j: int|
                0 <= j < i + 1 && #[trigger] aporta(auxiliar@, j, c) by {
                if contenido@.contains(c) && c != auxiliar@[i as int] {
                    let k = choose|k: int| 0 <= k < contenido@.len() && contenido@[k] == c;
                    assert(anterior[k] == c);
                    assert(anterior.contains(c));
                }
                if c == auxiliar@[i as int] {
                    assert(aporta(auxiliar@, i as int, c));
                    assert(contenido@[contenido@.len() - 1] == c);
                }
                if exists|j: int| 0 <= j < i + 1 && #[trigger] aporta(auxiliar@, j, c) {
                    let j = choose|j: int| 0 <= j < i + 1 && #[trigger] aporta(auxiliar@, j, c);
                    if j < i {
                        assert(anterior.contains(c));
                        let k = choose|k: int| 0 <= k < anterior.len() && anterior[k] == c;
                        assert(contenido@[k] == c);
                    }
                }
            }
        }
    }
    assert(contenido@.to_set() =~= contenido_corchete(auxiliar@));
    contenido
}

///Determina el contenido de un corchete.
fn determinar_contenido_a_evaluar(auxiliar: Vec<char>) -> (r: Result<Vec<char>, Error>)
    requires
    ensures
        r matches Ok(v) && v@.to_set() == contenido_corchete(auxiliar@),
{
    Ok(construir_contenido(&auxiliar))
}

/// The named class that `aux` spells, if any.
fn clase_por_nombre(aux: &Vec<char>, es_negado: bool) -> (r: Option<ClaseChar>)
    ensures
        match clase_nombrada(aux@, es_negado) {
            Some(k) => r matches Some(c) && c@ == k,
            None => r is None,
        },
{
    if misma_palabra(aux, &vec!['a', 'l', 'p', 'h', 'a']) {
        Some(ClaseChar::Alpha(es_negado))
    } else if misma_palabra(aux, &vec!['a', 'l', 'n', 'u', 'm']) {
        Some(ClaseChar::Alnum(es_negado))
    } else if misma_palabra(aux, &vec!['d', 'i', 'g', 'i', 't']) {
        Some(ClaseChar::Digit(es_negado))
    } else if misma_palabra(aux, &vec!['l', 'o', 'w', 'e', 'r']) {
        Some(ClaseChar::Lower(es_negado))
    } else if misma_palabra(aux, &vec!['u', 'p', 'p', 'e', 'r']) {
        Some(ClaseChar::Upper(es_negado))
    } else if misma_palabra(aux, &vec!['s', 'p', 'a', 'c', 'e']) {
        Some(ClaseChar::Space(es_negado))
    } else if misma_palabra(aux, &vec!['p', 'u', 'n', 'c', 't']) {
        Some(ClaseChar::Punct(es_negado))
    } else {
        None
    }
}

///Obtiene la clase de caracter que se debe evaluar.
/// - Si la clase de caracter es una de las predefinidas, se devuelve la clase de caracter correspondiente.
/// - Si la clase de caracter no es predefinida, se determina el contenido de la clase de caracter.
fn conseguir_lista(chars_iter: &mut Lector) -> (r: Result<ClaseChar, Error>)
    requires
        clase_de_corchete(leer_corchete(old(chars_iter).restantes(), 1, false, false, seq![])) is Some,
    ensures
        ({
            let l = leer_corchete(old(chars_iter).restantes(), 1, false, false, seq![]);
            &&& r matches Ok(c) && Some(c@) == clase_de_corchete(l)
            &&& final(chars_iter).restantes() == l.resto
        }),
{
    let (auxiliar, hay_clase, es_negado) = obtener_auxiliar(chars_iter);

    if hay_clase {
        if let Some(clase) = clase_por_nombre(&auxiliar, es_negado) {
            return Ok(clase);
        }
    }

    let contenido = determinar_contenido_a_evaluar(auxiliar);

    match contenido {
        Ok(contenido) => Ok(ClaseChar::Simple(contenido, es_negado)),
        Err(error) => Err(error),
    }
}

///Determina si el caracter anterior es un comodín.
///Para verificar que la expresión regular no comience con una repetición.
fn no_hay_anterior(anterior: &PasoRegex) -> (r: bool)
    ensures
        r == spec_no_hay_anterior(anterior@),
{
    matches!(anterior.caracter_interno, Caracter::Comodin) && matches!(anterior.repeticiones, Repeticion::Alguna(false))
}

/// Sets the repetition of the last step.
fn fijar_repeticion(steps: &mut Vec<PasoRegex>, repeticion: Repeticion)
    requires
        old(steps).len() > 0,
    ensures
        vista_pasos(final(steps)@) == con_repeticion(vista_pasos(old(steps)@), repeticion),
{
    let mut ultimo = steps.pop().unwrap();
    ultimo.repeticiones = repeticion;
    steps.push(ultimo);
    assert(vista_pasos(steps@) =~= con_repeticion(vista_pasos(old(steps)@), repeticion));
}

fn fabricar_paso_punto() -> (r: Result<Option<PasoRegex>, Error>)
    ensures
        r matches Ok(Some(p)) && p@ == paso_unitario(CaracterV::Comodin),
{
    Ok(Some(PasoRegex { repeticiones: Repeticion::Exacta(1, false), caracter_interno: Caracter::Comodin }))
}

fn fabricar_paso_literal(c: char) -> (r: Result<Option<PasoRegex>, Error>)
    ensures
        r matches Ok(Some(p)) && p@ == paso_unitario(CaracterV::Literal(c)),
{
    Ok(Some(PasoRegex { repeticiones: Repeticion::Exacta(1, false), caracter_interno: Caracter::Literal(c) }))
}

/// The value of the digits `v[desde..hasta]`, when it fits in a `usize`.
fn leer_numero(v: &Vec<char>, desde: usize, hasta: usize) -> (r: Option<usize>)
    requires
        desde <= hasta <= v.len(),
        forall|t: int| desde <= t < hasta ==> es_ascii_digito(#[trigger] v@[t]),
    ensures
        r == cota(v@.subrange(desde as int, hasta as int)),
{
    let mut acc: usize = 0;
    let mut cabe = true;
    let mut i = desde;
    assert(v@.subrange(desde as int, desde as int) =~= Seq::<char>::empty());
    while i < hasta
        invariant
            desde <= i <= hasta <= v.len(),
            forall|t: int| desde <= t < hasta ==> es_ascii_digito(#[trigger] v@[t]),
            cabe ==> acc == numero(v@.subrange(desde as int, i as int)),
            !cabe ==> numero(v@.subrange(desde as int, i as int)) > usize::MAX,
        decreases hasta - i,
    {
        let ghost s = v@.subrange(desde as int, i as int);
        let ghost s2 = v@.subrange(desde as int, i + 1);
        assert(s2.drop_last() =~= s);
        assert(s2.last() == v@[i as int]);
        assert(es_ascii_digito(v@[i as int]));
        let d = match digito(v[i]) {
            Some(d) => d,
            None => 0,
        };
        assert(numero(s2) == numero(s) * 10 + d);
        if cabe {
            match acc.checked_mul(10) {
                Some(x) => match x.checked_add(d) {
                    Some(y) => {
                        acc = y;
                    },
                    None => {
                        cabe = false;
                    },
                },
                None => {
                    cabe = false;
                },
            }
        }
        i += 1;
    }
    if cabe {
        Some(acc)
    } else {
        None
    }
}

/// What braces holding the digits and commas of `contenido` mean (with `n <= m`
/// asked of `{n,m}` where `ordenada` holds).
pub(crate) fn decidir(contenido: &Vec<char>, ordenada: bool) -> (r: Result<Repeticion, Error>)
    requires
        forall|t: int|
            0 <= t < contenido@.len() ==> #[trigger] contenido@[t] == ',' || es_ascii_digito(
                contenido@[t],
            ),
    ensures
        match decidir_llave(contenido@, ordenada) {
            DecisionLlave::Rep(rep) => r == Ok::<Repeticion, Error>(rep),
            DecisionLlave::Invalida => r == Err::<Repeticion, Error>(Error::ErrorEnLlaves),
        },
{
    let n = contenido.len();
    if n == 0 {
        return Err(Error::ErrorEnLlaves);
    }
    let mut k: usize = 0;
    while k < n && contenido[k] != ','
        invariant
            k <= n,
            n == contenido.len(),
            forall|t: int| 0 <= t < k ==> contenido@[t] != ',',
        decreases n - k,
    {
        k += 1;
    }
    proof {
        lema_primera_coma(contenido@);
    }
    assert(k == primera_coma(contenido@));
    if k == n {
        assert(contenido@.subrange(0, n as int) =~= contenido@);
        assert forall|t: int| 0 <= t < n implies es_ascii_digito(#[trigger] contenido@[t]) by {
            assert(contenido@[t] != ',');
        }
        return match leer_numero(contenido, 0, n) {
            Some(x) => Ok(Repeticion::Exacta(x, false)),
            None => Err(Error::ErrorEnLlaves),
        };
    }
    let ghost izq = contenido@.take(k as int);
    let ghost der = contenido@.skip(k + 1);
    assert(contenido@.subrange(0, k as int) =~= izq);
    let mut j: usize = k + 1;
    while j < n && contenido[j] != ','
        invariant
            k < j <= n,
            n == contenido.len(),
            forall|t: int| k + 1 <= t < j ==> contenido@[t] != ',',
        decreases n - j,
    {
        j += 1;
    }
    let ghost segundo = der.take(primera_coma(der) as int);
    proof {
        lema_primera_coma(der);
        let pc = primera_coma(der) as int;
        if pc < j - k - 1 {
            assert(der[pc] == contenido@[k + 1 + pc]);
        }
        if pc > j - k - 1 {
            assert(der[j - k - 1] == contenido@[j as int]);
        }
        assert(pc == j - k - 1);
        assert(contenido@.subrange(k + 1, j as int) =~= segundo);
    }
    assert forall|t: int| 0 <= t < k implies es_ascii_digito(#[trigger] contenido@[t]) by {
        assert(contenido@[t] != ',');
    }
    assert forall|t: int| k + 1 <= t < j implies es_ascii_digito(#[trigger] contenido@[t]) by {
        assert(contenido@[t] != ',');
    }
    if k == 0 {
        if j == k + 1 {
            return Err(Error::ErrorEnLlaves);
        }
        return match leer_numero(contenido, k + 1, j) {
            Some(m) => Ok(Repeticion::Rango { min: None, max: Some(m) }),
            None => Err(Error::ErrorEnLlaves),
        };
    }
    if contenido[n - 1] == ',' {
        return match leer_numero(contenido, 0, k) {
            Some(x) => Ok(Repeticion::Rango { min: Some(x), max: None }),
            None => Err(Error::ErrorEnLlaves),
        };
    }
    if j == k + 1 {
        return Err(Error::ErrorEnLlaves);
    }
    let min = leer_numero(contenido, 0, k);
    let max = leer_numero(contenido, k + 1, j);
    match (min, max) {
        (Some(x), Some(m)) => if !ordenada || x <= m {
            Ok(Repeticion::Rango { min: Some(x), max: Some(m) })
        } else {
            Err(Error::ErrorEnLlaves)
        },
        _ => Err(Error::ErrorEnLlaves),
    }
}

fn fabricar_paso_llave(steps: &mut Vec<PasoRegex>, chars_iter: &mut Lector) -> (r: Result<Option<PasoRegex>, Error>)
    requires
        !(paso_llave(vista_pasos(old(steps)@), old(chars_iter).restantes()) is Aborta),
    ensures
        cumple_fabricar(r, vista_pasos(old(steps)@), vista_pasos(final(steps)@), final(chars_iter).restantes(),
            paso_llave(vista_pasos(old(steps)@), old(chars_iter).restantes())),
{
    if steps.len() > 0 {
        assert(vista_pasos(steps@).last() == steps@[steps.len() - 1]@);
        if no_hay_anterior(&steps[steps.len() - 1]) {
            return Err(Error::ErrorEnRepeticion);
        }
        let mut contenido: Vec<char> = Vec::new();
        let mut rangos: Vec<usize> = Vec::new();
        let ghost inicio = chars_iter.restantes();
        loop
            invariant_except_break
                leer_llave(chars_iter.restantes(), contenido@, rangos@) == leer_llave(inicio, seq![], seq![]),
            invariant
                steps@ == old(steps)@,
                steps.len() > 0,
                !spec_no_hay_anterior(vista_pasos(steps@).last()),
                inicio == old(chars_iter).restantes(),
                contenido@.len() > 0 && contenido@[0] != ',' ==> rangos@.len() >= 1,
                contenido@.len() >= 2 && contenido@[0] != ',' && contenido@.last() != ',' ==> rangos@.len() >= 2,
                contenido@.len() > 0 ==> (contenido@[0] == ',' || es_ascii_digito(contenido@[0])),
                forall|t: int|
                    0 <= t < contenido@.len() ==> #[trigger] contenido@[t] == ',' || es_ascii_digito(
                        contenido@[t],
                    ),
            ensures
                leer_llave(inicio, seq![], seq![]) == (LecturaLlave::Leida {
                    contenido: contenido@,
                    rangos: rangos@,
                    resto: chars_iter.restantes(),
                }),
                contenido@.len() > 0 && contenido@[0] != ',' ==> rangos@.len() >= 1,
                contenido@.len() >= 2 && contenido@[0] != ',' && contenido@.last() != ',' ==> rangos@.len() >= 2,
                steps@ == old(steps)@,
                steps.len() > 0,
            decreases chars_iter.restantes().len(),
        {
            let c = match chars_iter.siguiente() {
                Some(c) => c,
                None => break,
            };
            if c == ',' {
                contenido.push(c);
            } else if c == LLAVE_CERRADA {
                break;
            } else {
                contenido.push(c);
                match digito(c) {
                    Some(cant) => rangos.push(cant),
                    None => return Err(Error::ErrorEnLlaves),
                }
            }
        }

        let repeticion = match decidir(&contenido, true) {
            Ok(repeticion) => repeticion,
            Err(error) => return Err(error),
        };
        fijar_repeticion(steps, repeticion);
    }
    Ok(None)
}

fn fabricar_paso_corchete(chars_iter: &mut Lector) -> (r: Result<Option<PasoRegex>, Error>)
    requires
        clase_de_corchete(leer_corchete(old(chars_iter).restantes(), 1, false, false, seq![])) is Some,
    ensures
        ({
            let l = leer_corchete(old(chars_iter).restantes(), 1, false, false, seq![]);
            &&& r matches Ok(Some(p)) && Some(p@) == (match clase_de_corchete(l) {
                Some(k) => Some(paso_unitario(CaracterV::Serie(k))),
                None => None,
            })
            &&& final(chars_iter).restantes() == l.resto
        }),
{
    match conseguir_lista(chars_iter) {
        Ok(contenido) => Ok(Some(PasoRegex {
            repeticiones: Repeticion::Exacta(1, false),
            caracter_interno: Caracter::Serie(contenido),
        })),
        Err(error) => Err(error),
    }
}

/// `?`, `*` and `+` set the repetition of the previous step.
fn fabricar_paso_repeticion(steps: &mut Vec<PasoRegex>, repeticion: Repeticion) -> (r: Result<Option<PasoRegex>, Error>)
    ensures
        r == (if old(steps).len() > 0 && spec_no_hay_anterior(vista_pasos(old(steps)@).last()) {
            Err::<Option<PasoRegex>, Error>(Error::ErrorEnRepeticion)
        } else {
            Ok(None)
        }),
        vista_pasos(final(steps)@) == (match paso_repeticion(vista_pasos(old(steps)@), seq![], repeticion) {
            Analisis::Listo { pasos, .. } => pasos,
            _ => vista_pasos(old(steps)@),
        }),
{
    if steps.len() > 0 {
        let n = steps.len();
        if no_hay_anterior(&steps[n - 1]) {
            return Err(Error::ErrorEnRepeticion);
        } else {
            fijar_repeticion(steps, repeticion);
        }
    }
    Ok(None)
}

fn fabricar_paso_interrogacion(steps: &mut Vec<PasoRegex>) -> (r: Result<Option<PasoRegex>, Error>)
    ensures
        r == (if old(steps).len() > 0 && spec_no_hay_anterior(vista_pasos(old(steps)@).last()) {
            Err::<Option<PasoRegex>, Error>(Error::ErrorEnRepeticion)
        } else {
            Ok(None)
        }),
        vista_pasos(final(steps)@) == (match paso_repeticion(vista_pasos(old(steps)@), seq![], Repeticion::Rango { min: Some(0), max: Some(1) }) {
            Analisis::Listo { pasos, .. } => pasos,
            _ => vista_pasos(old(steps)@),
        }),
{
    fabricar_paso_repeticion(steps, Repeticion::Rango { min: Some(0), max: Some(1) })
}

fn fabricar_paso_mas(steps: &mut Vec<PasoRegex>) -> (r: Result<Option<PasoRegex>, Error>)
    ensures
        r == (if old(steps).len() > 0 && spec_no_hay_anterior(vista_pasos(old(steps)@).last()) {
            Err::<Option<PasoRegex>, Error>(Error::ErrorEnRepeticion)
        } else {
            Ok(None)
        }),
        vista_pasos(final(steps)@) == (match paso_repeticion(vista_pasos(old(steps)@), seq![], Repeticion::Rango { min: Some(1), max: None }) {
            Analisis::Listo { pasos, .. } => pasos,
            _ => vista_pasos(old(steps)@),
        }),
{
    fabricar_paso_repeticion(steps, Repeticion::Rango { min: Some(1), max: None })
}

fn fabricar_paso_asterisco(steps: &mut Vec<PasoRegex>) -> (r: Result<Option<PasoRegex>, Error>)
    ensures
        r == (if old(steps).len() > 0 && spec_no_hay_anterior(vista_pasos(old(steps)@).last()) {
            Err::<Option<PasoRegex>, Error>(Error::ErrorEnRepeticion)
        } else {
            Ok(None)
        }),
        vista_pasos(final(steps)@) == (match paso_repeticion(vista_pasos(old(steps)@), seq![], Repeticion::Alguna(false)) {
            Analisis::Listo { pasos, .. } => pasos,
            _ => vista_pasos(old(steps)@),
        }),
{
    fabricar_paso_repeticion(steps, Repeticion::Alguna(false))
}

fn fabricar_paso_barra(chars_iter: &mut Lector) -> (r: Result<Option<PasoRegex>, Error>)
    ensures
        old(chars_iter).restantes().len() > 0 ==> (r matches Ok(Some(p)) && p@ == paso_unitario(
            CaracterV::Literal(old(chars_iter).restantes()[0]),
        )) && final(chars_iter).restantes() == old(chars_iter).restantes().drop_first(),
        old(chars_iter).restantes().len() == 0 ==> r == Err::<Option<PasoRegex>, Error>(
            Error::CaracterNoProcesable,
        ) && final(chars_iter).restantes() == old(chars_iter).restantes(),
{
    match chars_iter.siguiente() {
        Some(literal) => Ok(Some(PasoRegex {
            repeticiones: Repeticion::Exacta(1, false),
            caracter_interno: Caracter::Literal(literal),
        })),
        None => Err(Error::CaracterNoProcesable),
    }
}

fn fabricar_paso_dolar() -> (r: Result<Option<PasoRegex>, Error>)
    ensures
        r matches Ok(Some(p)) && p@ == paso_unitario(CaracterV::Dolar),
{
    Ok(Some(PasoRegex { repeticiones: Repeticion::Exacta(1, false), caracter_interno: Caracter::Dolar }))
}

/// What one character of the expression gives: a new step, a change to the
/// previous step, nothing, or an error.
fn fabricar_paso_caracter(c: char, steps: &mut Vec<PasoRegex>, chars_iter: &mut Lector) -> (r: Result<Option<PasoRegex>, Error>)
    requires
        !(fabricar_paso(c, vista_pasos(old(steps)@), old(chars_iter).restantes()) is Aborta),
    ensures
        cumple_fabricar(r, vista_pasos(old(steps)@), vista_pasos(final(steps)@), final(chars_iter).restantes(),
            fabricar_paso(c, vista_pasos(old(steps)@), old(chars_iter).restantes())),
{
    if c == PUNTO {
        fabricar_paso_punto()
    } else if ('a' <= c && c <= 'z') || ('A' <= c && c <= 'Z') || ('0' <= c && c <= '9') || c == ' ' {
        fabricar_paso_literal(c)
    } else if c == LLAVE_ABIERTA {
        fabricar_paso_llave(steps, chars_iter)
    } else if c == CORCHETE_ABIERTO {
        fabricar_paso_corchete(chars_iter)
    } else if c == INTERROGACION {
        fabricar_paso_interrogacion(steps)
    } else if c == ASTERISCO {
        fabricar_paso_asterisco(steps)
    } else if c == MAS {
        fabricar_paso_mas(steps)
    } else if c == BARRA {
        fabricar_paso_barra(chars_iter)
    } else if c == DOLAR {
        fabricar_paso_dolar()
    } else if c == CARET {
        Ok(None)
    } else if c == FUNCION_OR {
        Ok(None)
    } else {
        Err(Error::CaracterNoProcesable)
    }
}

/// A copy of the steps.
fn copiar_pasos(pasos: &Vec<PasoRegex>) -> (r: Vec<PasoRegex>)
    ensures
        vista_pasos(r@) == vista_pasos(pasos@),
{
    let mut copia: Vec<PasoRegex> = Vec::new();
    let n = pasos.len();
    for i in 0..n
        invariant
            n == pasos.len(),
            vista_pasos(copia@) == vista_pasos(pasos@).take(i as int),
    {
        let p = pasos[i].clone();
        proof { lema_vista_push(copia@, p); }
        copia.push(p);
        assert(vista_pasos(pasos@).take(i + 1) =~= vista_pasos(pasos@).take(i as int).push(p@));
    }
    assert(vista_pasos(pasos@).take(n as int) =~= vista_pasos(pasos@));
    copia
}

///Agrega los pasos a la expresión regular.
/// - Si el caracter es un punto, se agrega un paso con un comodín.
/// - Si el caracter es un literal, se agrega un paso con el literal.
/// - Si el caracter es una llave abierta, se obtiene el contenido de la llave y se agrega un paso con la cantidad de repeticiones
/// y según si se trata de una repetición exacta, con solo mínimo, con solo máximo o ambas.
/// - Si el caracter es un corchete abierto, se obtiene el contenido del corchete y se agrega un paso con la clase de caracteres.
/// - Si el caracter es un asterisco, se agrega un paso con Alguna cantidad de repeticiones.
/// - Si el caracter es un signo de interrogación, se agrega un paso con la cantidad de repeticiones (0 o 1 vez).
/// - Si el caracter es un signo de más, se agrega un paso con la cantidad de repeticiones (1 o más).
/// - Si el caracter es una barra, se obtiene el siguiente caracter y se agrega un paso con el literal.
/// - Si el caracter es un dolar, se agrega un paso con un dolar.
/// - Si el caracter es un caret, no se agrega un paso.
/// - Si el caracter es una función OR, no se agrega un paso.
/// - Si el caracter no es procesable, se devuelve un error.
pub fn agregar_pasos(pasos: &mut Vec<PasoRegex>, chars_iter: &mut Lector) -> (r: Result<Vec<PasoRegex>, Error>)
    ensures
        match analizar(vista_pasos(old(pasos)@), old(chars_iter).restantes()) {
            Analisis::Listo { pasos: p, resto } => {
                &&& r matches Ok(v) && vista_pasos(v@) == p
                &&& vista_pasos(final(pasos)@) == p
                &&& final(chars_iter).restantes() == resto
            },
            Analisis::Falla { error, pasos: p, resto } => {
                &&& r == Err::<Vec<PasoRegex>, Error>(error)
                &&& vista_pasos(final(pasos)@) == p
                &&& final(chars_iter).restantes() == resto
            },
            Analisis::Aborta => false,
        },
{
    proof {
        lema_analizar_no_aborta(vista_pasos(pasos@), chars_iter.restantes());
    }
    let ghost objetivo = analizar(vista_pasos(pasos@), chars_iter.restantes());
    loop
        invariant
            analizar(vista_pasos(pasos@), chars_iter.restantes()) == objetivo,
            objetivo == analizar(vista_pasos(old(pasos)@), old(chars_iter).restantes()),
            !(objetivo is Aborta),
        ensures
            analizar(vista_pasos(pasos@), chars_iter.restantes()) == objetivo,
            chars_iter.restantes().len() == 0,
        decreases chars_iter.restantes().len(),
    {
        let ghost antes = chars_iter.restantes();
        let ghost pasos_antes = vista_pasos(pasos@);
        let c = match chars_iter.siguiente() {
            Some(c) => c,
            None => break,
        };
        proof {
            crate::analisis::lema_fabricar_consume(c, pasos_antes, chars_iter.restantes());
        }
        match fabricar_paso_caracter(c, pasos, chars_iter) {
            Ok(Some(paso)) => {
                proof { lema_vista_push(pasos@, paso); }
                pasos.push(paso);
            },
            Ok(None) => {},
            Err(e) => {
                assert(analizar(pasos_antes, antes) == fabricar_paso(c, pasos_antes, antes.drop_first()));
                return Err(e);
            },
        }
    }
    Ok(copiar_pasos(pasos))
}

///Determina si se debe agregar un paso con un comodín al principio de la expresión regular
///(como un .*), si esta no comienza con un CARET ^.
fn definir_uso_de_caret(expresion: &Vec<char>, pasos: &mut Vec<PasoRegex>)
    ensures
        vista_pasos(final(pasos)@) == vista_pasos(old(pasos)@) + pasos_iniciales(expresion@),
{
    if !(expresion.len() > 0 && expresion[0] == CARET) {
        let paso = PasoRegex { repeticiones: Repeticion::Alguna(false), caracter_interno: Caracter::Comodin };
        proof { lema_vista_push(pasos@, paso); }
        pasos.push(paso);
        assert(vista_pasos(pasos@) =~= vista_pasos(old(pasos)@) + pasos_iniciales(expresion@));
    } else {
        assert(vista_pasos(pasos@) =~= vista_pasos(old(pasos)@) + pasos_iniciales(expresion@));
    }
}

/// The part of the line from position `index` on.
pub(crate) fn desde(linea: &str, index: usize) -> (r: &str)
    requires
        linea.is_ascii(),
        index <= linea@.len(),
        linea@.len() < usize::MAX,
    ensures
        r@ == linea@.subrange(index as int, linea@.len() as int),
        vstd::utf8::is_ascii_chars(r@),
{
    proof {
        vstd::string::is_ascii_spec_bytes(linea);
        assert(linea.spec_bytes().len() == linea@.len());
    }
    linea.substring_ascii(index, linea.len())
}

/// Tries the numbers of matches of the `k`-th step from `maximo` down to
/// `minimo`, matching the steps after it from where each number of matches ends:
/// the matcher gives back one match at a time until the rest of the expression
/// matches, or no match is left to give back.
fn backtrack(pasos: &Vec<PasoRegex>, k: usize, linea: &Vec<char>, i: usize, minimo: usize, maximo: usize) -> (r: bool)
    requires
        k < pasos@.len(),
        i + maximo <= linea@.len(),
    ensures
        r == exists|c: nat|
            minimo <= c <= maximo && #[trigger] desde_tras(vista_pasos(pasos@).skip(k + 1), linea@, i as int, c),
    decreases pasos@.len() - k, 1nat,
{
    let ghost resto = vista_pasos(pasos@).skip(k + 1);
    let total = pasos.len();
    let largo = linea.len();
    if maximo < minimo {
        return false;
    }
    let mut c = maximo;
    loop
        invariant
            total == pasos@.len(),
            largo == linea@.len(),
            k < pasos@.len(),
            i + maximo <= linea@.len(),
            minimo <= c <= maximo,
            resto == vista_pasos(pasos@).skip(k + 1),
            forall|d: nat| c < d <= maximo ==> !#[trigger] desde_tras(resto, linea@, i as int, d),
        decreases c,
    {
        if Regex::coincide_desde(pasos, k + 1, linea, i + c) {
            assert(desde_tras(resto, linea@, i as int, c as nat));
            return true;
        }
        assert(!desde_tras(resto, linea@, i as int, c as nat));
        if c == minimo {
            return false;
        }
        c = c - 1;
    }
}

///Verifica si la expresión regular está escrita correctamente.
///Determina si las llaves y los corchetes se abren y se cierran
///como corresponde. En cada caso devuelve un error explicativo.
///Además, verifica que la función OR no esté dentro de llaves o corchetes.
fn expresion_escrita_correctamente(expresion: &str) -> (r: Result<(), Error>)
    requires
        !(revisar(expresion@, 0, 0) is Aborta),
    ensures
        match revisar(expresion@, 0, 0) {
            Revision::Correcta => r is Ok,
            Revision::Incorrecta(e) => r == Err::<(), Error>(e),
            Revision::Aborta => false,
        },
{
    let mut cont_llaves: i32 = 0;
    let mut cont_corchetes: i32 = 0;
    let ghost objetivo = revisar(expresion@, 0, 0);
    assert(expresion@.skip(0) =~= expresion@);
    for c in iter: expresion.chars()
        invariant
            iter.seq() == expresion@,
            objetivo == revisar(expresion@, 0, 0),
            !(objetivo is Aborta),
            revisar(expresion@.skip(iter.index() as int), cont_llaves as int, cont_corchetes as int) == objetivo,
    {
        let ghost resto = expresion@.skip(iter.index() as int);
        assert(resto[0] == c);
        assert(resto.drop_first() =~= expresion@.skip(iter.index() + 1));
        if c == LLAVE_ABIERTA {
            cont_llaves += 1;
        } else if c == LLAVE_CERRADA {
            if cont_llaves <= 0 {
                return Err(Error::ErrorEnLlaves);
            }
            cont_llaves -= 1;
        } else if c == CORCHETE_ABIERTO {
            cont_corchetes += 1;
        } else if c == CORCHETE_CERRADO {
            if cont_corchetes <= 0 {
                return Err(Error::ErrorEnCorchetes);
            }
            cont_corchetes -= 1;
        } else if c == FUNCION_OR {
            if cont_llaves != 0 || cont_corchetes != 0 {
                return Err(Error::ErrorEnFuncionOR);
            }
        }
    }
    if cont_llaves != 0 {
        return Err(Error::ErrorEnLlaves);
    }
    if cont_corchetes != 0 {
        return Err(Error::ErrorEnCorchetes);
    }
    Ok(())
}

/// The characters of `v` from `inicio` up to the next `|` (or the end), and the
/// position where they stop.
pub(crate) fn siguiente_parte(v: &Vec<char>, inicio: usize) -> (r: (Vec<char>, usize))
    requires
        inicio <= v@.len(),
    ensures
        r.1 == inicio + primer_barra(v@.skip(inicio as int)),
        r.0@ == v@.skip(inicio as int).take(primer_barra(v@.skip(inicio as int)) as int),
{
    let ghost s = v@.skip(inicio as int);
    proof { lema_primer_barra(s); }
    let mut parte: Vec<char> = Vec::new();
    let mut fin = inicio;
    while fin < v.len() && v[fin] != FUNCION_OR
        invariant
            inicio <= fin <= v@.len(),
            s == v@.skip(inicio as int),
            fin - inicio <= primer_barra(s),
            parte@ == s.take(fin - inicio),
            primer_barra(s) <= s.len(),
            primer_barra(s) < s.len() ==> s[primer_barra(s) as int] == '|',
            forall|i: int| 0 <= i < primer_barra(s) ==> s[i] != '|',
        decreases v@.len() - fin,
    {
        assert(s[fin - inicio] == v@[fin as int]);
        parte.push(v[fin]);
        assert(parte@ =~= s.take(fin + 1 - inicio));
        fin = fin + 1;
    }
    proof {
        if fin < v@.len() {
            assert(s[fin - inicio] == '|');
        }
    }
    (parte, fin)
}

impl Regex {
    /// The expression read from characters.
    fn desde_caracteres(expresion: Vec<char>) -> (r: Result<Self, Error>)
        ensures
            match analizar_expresion(expresion@) {
                Analisis::Listo { pasos, .. } => r matches Ok(rx) && rx@ == pasos,
                Analisis::Falla { error, .. } => r matches Err(e) && e == error,
                Analisis::Aborta => false,
            },
    {
        let mut pasos: Vec<PasoRegex> = Vec::new();
        definir_uso_de_caret(&expresion, &mut pasos);
        assert(vista_pasos(pasos@) =~= pasos_iniciales(expresion@));
        let mut chars_iter = Lector::desde_vector(expresion);
        let pasos = agregar_pasos(&mut pasos, &mut chars_iter)?;
        Ok(Regex { pasos })
    }

    ///Verifica si una expresión regular es válida para una línea de texto.
    /// - Si la expresión regular está escrita correctamente, se evalúa si la línea cumple con la expresión regular.
    /// En caso de tener una función OR, se evalúa si alguna de las expresiones es válida.
    /// - Si la expresión regular no está escrita correctamente, se devuelve un error.
    pub fn es_valida_general(expresion_completa: &str, linea: &str) -> (r: Result<bool, Error>)
        requires
            !(revisar(expresion_completa@, 0, 0) is Aborta),
        ensures
            valida_general(expresion_completa@, linea@) == Some(r),
    {
        let mut valida = false;

        match expresion_escrita_correctamente(expresion_completa) {
            Ok(_) => {
                let expresiones = crate::texto::a_vector(expresion_completa);
                let ghost objetivo = evaluar_alternativas(expresiones@, linea@);
                let mut inicio: usize = 0;
                assert(expresiones@.skip(0) =~= expresiones@);
                loop
                    invariant_except_break
                        !valida,
                    invariant
                        inicio <= expresiones@.len(),
                        evaluar_alternativas(expresiones@.skip(inicio as int), linea@) == objetivo,
                        Some(objetivo) == valida_general(expresion_completa@, linea@),
                    ensures
                        objetivo == Ok::<bool, Error>(valida),
                    decreases expresiones@.len() - inicio,
                {
                    let ghost resto = expresiones@.skip(inicio as int);
                    let (exp, fin) = siguiente_parte(&expresiones, inicio);
                    proof {
                        lema_primer_barra(resto);
                        lema_analizar_no_aborta(pasos_iniciales(exp@), exp@);
                    }
                    let regex = match Regex::desde_caracteres(exp) {
                        Ok(regex) => regex,
                        Err(err) => return Err(err),
                    };
                    proof {
                        vstd::string::is_ascii_spec_bytes(linea);
                    }
                    if regex.es_valida(linea)? {
                        valida = true;
                        break;
                    }
                    if fin >= expresiones.len() {
                        assert(primer_barra(resto) >= resto.len());
                        break;
                    }
                    assert(resto.skip(primer_barra(resto) as int + 1) =~= expresiones@.skip(fin + 1));
                    inicio = fin + 1;
                }
                Ok(valida)
            },
            Err(error) => Err(error),
        }
    }

    ///Crea una nueva expresión regular a partir de una cadena de texto.
    ///Teniendo en cuenta si comienza con un CARET ^ o no.
    pub fn new(expresion: &str) -> (r: Result<Self, Error>)
        ensures
            match analizar_expresion(expresion@) {
                Analisis::Listo { pasos, .. } => r matches Ok(rx) && rx@ == pasos,
                Analisis::Falla { error, .. } => r matches Err(e) && e == error,
                Analisis::Aborta => false,
            },
    {
        Self::desde_caracteres(crate::texto::a_vector(expresion))
    }

    ///Procesa "alguna" repeticion.
    /// How many characters in a row, from position `i`, the unit accepts: as many
    /// matches as it takes.
    fn procesar_alguna(car: &Caracter, linea: &Vec<char>, i: usize) -> (r: usize)
        requires
            i <= linea@.len(),
        ensures
            i + r <= linea@.len(),
            forall|t: int| i <= t < i + r ==> admite(car@, #[trigger] linea@[t]),
            i + r < linea@.len() ==> !admite(car@, linea@[i + r]),
    {
        let largo = linea.len();
        let mut r: usize = 0;
        while i + r < largo && car.admite_caracter(linea[i + r])
            invariant
                largo == linea@.len(),
                i + r <= linea@.len(),
                forall|t: int| i <= t < i + r ==> admite(car@, #[trigger] linea@[t]),
            decreases linea@.len() - i - r,
        {
            r = r + 1;
        }
        r
    }

    /// Whether the steps from the `k`-th on match the line from position `i` on.
    fn coincide_desde(pasos: &Vec<PasoRegex>, k: usize, linea: &Vec<char>, i: usize) -> (r: bool)
        requires
            k <= pasos@.len(),
            i <= linea@.len(),
        ensures
            r == casa_desde(vista_pasos(pasos@).skip(k as int), linea@, i as int),
        decreases pasos@.len() - k, 3nat,
    {
        if k == pasos.len() {
            proof {
                lema_desde_vacio(vista_pasos(pasos@).skip(k as int), linea@, i as int);
            }
            return true;
        }
        match pasos[k].repeticiones {
            Repeticion::Exacta(n, _) => Self::procesar_exacta(pasos, k, linea, i, n),
            Repeticion::Alguna(_) => Self::procesar_rango(pasos, k, linea, i, 0, None),
            Repeticion::Rango { min, max } => Self::procesar_rango(
                pasos,
                k,
                linea,
                i,
                match min {
                    Some(m) => m,
                    None => 0,
                },
                max,
            ),
        }
    }

    ///Procesa una repetición exacta.
    /// The `k`-th step, to be matched exactly `n` times from `i`, and the steps
    /// after it from where those matches end.
    fn procesar_exacta(pasos: &Vec<PasoRegex>, k: usize, linea: &Vec<char>, i: usize, n: usize) -> (r: bool)
        requires
            k < pasos@.len(),
            i <= linea@.len(),
            pasos@[k as int].repeticiones matches Repeticion::Exacta(m, _) && m == n,
        ensures
            r == casa_desde(vista_pasos(pasos@).skip(k as int), linea@, i as int),
        decreases pasos@.len() - k, 2nat,
    {
        let ghost todos = vista_pasos(pasos@).skip(k as int);
        let ghost p = todos[0];
        let ghost resto = todos.drop_first();
        proof {
            assert(p == pasos@[k as int]@);
            assert(resto =~= vista_pasos(pasos@).skip(k + 1));
            lema_desde_paso(todos, linea@, i as int);
        }
        let total = pasos.len();
        let largo = linea.len();
        let car = &pasos[k].caracter_interno;
        if let Caracter::Dolar = car {
            proof {
                lema_tras_dolar(linea@, i as int, n as nat);
            }
            if n == 0 || i == linea.len() {
                let r = Self::coincide_desde(pasos, k + 1, linea, i);
                proof {
                    if r {
                        assert(sigue(p, resto, linea@, i as int, n as nat));
                    }
                }
                return r;
            }
            proof {
                assert forall|c: nat| !#[trigger] sigue(p, resto, linea@, i as int, c) by {
                    if sigue(p, resto, linea@, i as int, c) {
                        assert(c == n);
                    }
                }
            }
            return false;
        }
        proof {
            lema_tras_unidad(car@, linea@, i as int, n as nat);
        }
        let mut t: usize = 0;
        while t < n
            invariant
                largo == linea@.len(),
                i <= linea@.len(),
                !(car@ is Dolar),
                car@ == p.caracter,
                p.repeticion matches Repeticion::Exacta(m, _) && m == n,
                casa_desde(vista_pasos(pasos@).skip(k as int), linea@, i as int) == exists|c: nat|
                    #[trigger] sigue(p, resto, linea@, i as int, c),
                t <= n,
                i + t <= linea@.len(),
                forall|u: int| i <= u < i + t ==> admite(car@, #[trigger] linea@[u]),
            decreases n - t,
        {
            if i + t >= largo || !car.admite_caracter(linea[i + t]) {
                proof {
                    assert(!(forall|u: int| i <= u < i + n ==> admite(car@, #[trigger] linea@[u]))
                        || i + n > linea@.len()) by {
                        if i + t < linea@.len() {
                            assert(!admite(car@, linea@[i + t]));
                        }
                    }
                    lema_tras_unidad(car@, linea@, i as int, n as nat);
                    assert forall|c: nat| !#[trigger] sigue(p, resto, linea@, i as int, c) by {
                        if sigue(p, resto, linea@, i as int, c) {
                            assert(c == n);
                        }
                    }
                }
                return false;
            }
            t = t + 1;
        }
        let r = Self::coincide_desde(pasos, k + 1, linea, i + n);
        proof {
            if r {
                assert(sigue(p, resto, linea@, i as int, n as nat));
            }
        }
        r
    }

    ///Procesa una repetición de rango.
    /// The `k`-th step, to be matched between `minimo` and `maximo` times (any
    /// number from `minimo` on where there is no `maximo`) from `i`, and the steps
    /// after it from where those matches end: first as many matches as there
    /// are, then fewer, one at a time.
    fn procesar_rango(
        pasos: &Vec<PasoRegex>,
        k: usize,
        linea: &Vec<char>,
        i: usize,
        minimo: usize,
        maximo: Option<usize>,
    ) -> (r: bool)
        requires
            k < pasos@.len(),
            i <= linea@.len(),
            forall|c: nat|
                #[trigger] cuenta_valida(pasos@[k as int].repeticiones, c) == (minimo <= c && (maximo matches Some(
                    m,
                ) ==> c <= m)),
        ensures
            r == casa_desde(vista_pasos(pasos@).skip(k as int), linea@, i as int),
        decreases pasos@.len() - k, 2nat,
    {
        let ghost todos = vista_pasos(pasos@).skip(k as int);
        let ghost p = todos[0];
        let ghost resto = todos.drop_first();
        proof {
            assert(p == pasos@[k as int]@);
            assert(resto =~= vista_pasos(pasos@).skip(k + 1));
            lema_desde_paso(todos, linea@, i as int);
        }
        let total = pasos.len();
        let car = &pasos[k].caracter_interno;
        if let Caracter::Dolar = car {
            let cabe = if i == linea.len() {
                match maximo {
                    Some(m) => minimo <= m,
                    None => true,
                }
            } else {
                minimo == 0
            };
            proof {
                if cabe {
                    let c: nat = if i == linea@.len() { minimo as nat } else { 0 };
                    lema_tras_dolar(linea@, i as int, c);
                    assert(cuenta_valida(p.repeticion, c));
                } else {
                    assert forall|c: nat| !#[trigger] sigue(p, resto, linea@, i as int, c) by {
                        lema_tras_dolar(linea@, i as int, c);
                        if sigue(p, resto, linea@, i as int, c) {
                            assert(cuenta_valida(p.repeticion, c));
                        }
                    }
                }
            }
            if !cabe {
                return false;
            }
            let r = Self::coincide_desde(pasos, k + 1, linea, i);
            proof {
                let c: nat = if i == linea@.len() { minimo as nat } else { 0 };
                lema_tras_dolar(linea@, i as int, c);
                assert(cuenta_valida(p.repeticion, c));
                if r {
                    assert(sigue(p, resto, linea@, i as int, c));
                } else {
                    assert forall|d: nat| !#[trigger] sigue(p, resto, linea@, i as int, d) by {
                        lema_tras_dolar(linea@, i as int, d);
                    }
                }
            }
            return r;
        }
        let corrida = Self::procesar_alguna(car, linea, i);
        let tope = match maximo {
            Some(m) => if m < corrida {
                m
            } else {
                corrida
            },
            None => corrida,
        };
        let r = backtrack(pasos, k, linea, i, minimo, tope);
        proof {
            if r {
                let c = choose|c: nat|
                    minimo <= c <= tope && #[trigger] desde_tras(resto, linea@, i as int, c);
                lema_tras_corrida(car@, linea@, i as int, corrida as int, c);
                assert(cuenta_valida(p.repeticion, c));
                assert(sigue(p, resto, linea@, i as int, c));
            } else {
                assert forall|c: nat| !#[trigger] sigue(p, resto, linea@, i as int, c) by {
                    lema_tras_corrida(car@, linea@, i as int, corrida as int, c);
                    if sigue(p, resto, linea@, i as int, c) {
                        assert(cuenta_valida(p.repeticion, c));
                        assert(minimo <= c <= tope);
                        assert(desde_tras(resto, linea@, i as int, c));
                    }
                }
            }
        }
        r
    }

    ///Verifica si una expresión regular es válida para una línea de texto,
    ///es el "validador" de la expresión regular.
    ///Según el tipo de repetición, se busca en la línea de texto la
    ///coincidencia. Si no se encuentra, se evalúa si se puede hacer un backtrack.
    /// An ASCII line is accepted exactly when it contains a stretch that the
    /// expression matches (at its start when the expression starts with `^`); a
    /// line that is not ASCII is refused.
    pub fn es_valida(self, linea: &str) -> (r: Result<bool, Error>)
        ensures
            !linea.is_ascii() ==> r == Err::<bool, Error>(Error::FormatoDeLineaNoASCII),
            linea.is_ascii() ==> r == Ok::<bool, Error>(hay_coincidencia(self@, linea@)),
            linea.is_ascii() ==> r == Ok::<bool, Error>(acepta(linea@, self@)),
    {
        if !linea.is_ascii() {
            return Err(Error::FormatoDeLineaNoASCII);
        }
        let caracteres = crate::texto::a_vector(linea);
        let r = Self::coincide_desde(&self.pasos, 0, &caracteres, 0);
        proof {
            assert(vista_pasos(self.pasos@).skip(0) =~= self@);
            ley_busqueda_general(self@, linea@);
        }
        Ok(r)
    }
}

} // verus!
