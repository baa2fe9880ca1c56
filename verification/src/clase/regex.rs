//! Regular expressions of this matcher: reading an expression into steps, and
//! matching a line of text against them by backtracking.
use vstd::prelude::*;
use crate::analisis::{
    DecisionLlave, LecturaLlave, decidir_llave, leer_corchete, leer_llave, clase_nombrada,
    no_hay_anterior as spec_no_hay_anterior, con_repeticion, pasos_iniciales, primer_barra,
    lema_primer_barra,
};
use crate::clase::analisis::{
    lema_analizar_no_aborta, Analisis, Revision, fabricar_paso, analizar, analizar_expresion, revisar, clase_sin_negar,
    lema_fabricar_consume,
};
use crate::clase::caracter::Caracter;
use crate::clase::clase_char::ClaseChar;
use crate::clase::errors::Error;
use crate::clase::evaluacion::{
    alternativas_al_final, lema_alternativas_al_final, ley_dolar_al_final, ley_expresion_responde,
};
use crate::clase::evaluacion::dolar_al_final;
use crate::clase::motor::{
    exacta, alguna, rango, avance_rango, avanzar, ejecutar, lema_avanzar, resultado,
    evaluar_alternativas, valida_general,
};
use crate::clase::repeticion::Repeticion;
use crate::clase::step_evaluado::{StepEvaluado, vista_step_evaluados};
use crate::clase::step_regex::{StepRegex, vista_steps};
use crate::caracter::lema_coincidencia_acotada;
use crate::lector::Lector;
use crate::motor::{Avance, Estado, retroceso, estado_valido, suma_tam, potencial, lema_retroceso_exec};
use crate::paso_evaluado::EvaluadoV;
use crate::paso_regex::PasoV;
use crate::regex::{obtener_auxiliar, construir_contenido, desde, siguiente_parte};
use crate::texto::{digito, misma_palabra, es_ascii_digito};
use std::collections::VecDeque;

verus! {

broadcast use vstd::string::group_string_axioms;

const CORCHETE_ABIERTO: char = '[';
const CORCHETE_CERRADO: char = ']';
const LLAVE_ABIERTA: char = '{';
const LLAVE_CERRADA: char = '}';
const ASTERISCO: char = '*';
const INTERROGACION: char = '?';
const MAS: char = '+';
const PUNTO: char = '.';
const BARRA: char = '\\';
const DOLAR: char = '$';
const CARET: char = '^';
const FUNCION_OR: char = '|';

/// A regular expression that can be matched against a line of text: the steps
/// that the line has to go through.
pub struct Regex {
    pasos: Vec<StepRegex>,
}

impl View for Regex {
    type V = Seq<PasoV>;

    closed spec fn view(&self) -> Seq<PasoV> {
        vista_steps(self.pasos@)
    }
}

proof fn lema_vista_push(v: Seq<StepRegex>, p: StepRegex)
    ensures
        vista_steps(v.push(p)) == vista_steps(v).push(p@),
{
    assert(vista_steps(v.push(p)) =~= vista_steps(v).push(p@));
}

proof fn lema_vista_evaluados_push(v: Seq<StepEvaluado>, p: StepEvaluado)
    ensures
        vista_step_evaluados(v.push(p)) == vista_step_evaluados(v).push(p@),
{
    assert(vista_step_evaluados(v.push(p)) =~= vista_step_evaluados(v).push(p@));
}

/// The named class that `aux` spells, if any.
fn clase_por_nombre(aux: &Vec<char>) -> (r: Option<ClaseChar>)
    ensures
        match clase_nombrada(aux@, false) {
            Some(k) => r matches Some(c) && c@ == k,
            None => r is None,
        },
{
    if misma_palabra(aux, &vec!['a', 'l', 'p', 'h', 'a']) {
        Some(ClaseChar::Alpha)
    } else if misma_palabra(aux, &vec!['a', 'l', 'n', 'u', 'm']) {
        Some(ClaseChar::Alnum)
    } else if misma_palabra(aux, &vec!['d', 'i', 'g', 'i', 't']) {
        Some(ClaseChar::Digit)
    } else if misma_palabra(aux, &vec!['l', 'o', 'w', 'e', 'r']) {
        Some(ClaseChar::Lower)
    } else if misma_palabra(aux, &vec!['u', 'p', 'p', 'e', 'r']) {
        Some(ClaseChar::Upper)
    } else if misma_palabra(aux, &vec!['s', 'p', 'a', 'c', 'e']) {
        Some(ClaseChar::Space)
    } else if misma_palabra(aux, &vec!['p', 'u', 'n', 'c', 't']) {
        Some(ClaseChar::Punct)
    } else {
        None
    }
}

///Determina el contenido de un corchete.
fn determinar_contenido_a_evaluar(auxiliar: Vec<char>) -> (r: Result<Vec<char>, Error>)
    requires
    ensures
        r matches Ok(v) && v@.to_set() == crate::analisis::contenido_corchete(auxiliar@),
{
    Ok(construir_contenido(&auxiliar))
}

/// Reads a bracket's contents: the class they stand for, and whether they are
/// negated.
fn conseguir_lista(chars_iter: &mut Lector) -> (r: Result<(ClaseChar, bool), Error>)
    requires
        clase_sin_negar(leer_corchete(old(chars_iter).restantes(), 1, false, false, seq![])) is Some,
    ensures
        ({
            let l = leer_corchete(old(chars_iter).restantes(), 1, false, false, seq![]);
            &&& r matches Ok((c, n)) && Some(c@) == clase_sin_negar(l) && n == l.negado
            &&& final(chars_iter).restantes() == l.resto
        }),
{
    let (auxiliar, hay_clase, es_negado) = obtener_auxiliar(chars_iter);

    if hay_clase {
        if let Some(clase) = clase_por_nombre(&auxiliar) {
            return Ok((clase, es_negado));
        }
    }

    let contenido = determinar_contenido_a_evaluar(auxiliar);

    match contenido {
        Ok(content) => Ok((ClaseChar::Simple(content), es_negado)),
        Err(error) => Err(error),
    }
}

/// Whether the previous step is the leading `.*`.
fn no_hay_anterior(anterior: &StepRegex) -> (r: bool)
    ensures
        r == spec_no_hay_anterior(anterior@),
{
    matches!(anterior.caracter_interno, Caracter::Comodin) && matches!(anterior.repeticiones, Repeticion::Alguna(false))
}

/// Sets the repetition of the last step.
fn fijar_repeticion(steps: &mut Vec<StepRegex>, repeticion: Repeticion)
    requires
        old(steps).len() > 0,
    ensures
        vista_steps(final(steps)@) == con_repeticion(vista_steps(old(steps)@), repeticion@),
{
    let mut ultimo = steps.pop().unwrap();
    ultimo.repeticiones = repeticion;
    steps.push(ultimo);
    assert(vista_steps(steps@) =~= con_repeticion(vista_steps(old(steps)@), repeticion@));
}

/// What braces holding the digits and commas of `contenido` mean, as a
/// repetition of this matcher.
fn decidir(contenido: &Vec<char>) -> (r: Result<Repeticion, Error>)
    requires
        forall|t: int|
            0 <= t < contenido@.len() ==> #[trigger] contenido@[t] == ',' || es_ascii_digito(
                contenido@[t],
            ),
    ensures
        match decidir_llave(contenido@, false) {
            DecisionLlave::Rep(rep) => r matches Ok(x) && x@ == rep,
            DecisionLlave::Invalida => r == Err::<Repeticion, Error>(Error::ErrorEnLlaves),
        },
{
    match crate::regex::decidir(contenido, false) {
        Ok(crate::repeticion::Repeticion::Exacta(n, b)) => Ok(Repeticion::Exacta(n, b)),
        Ok(crate::repeticion::Repeticion::Alguna(b)) => Ok(Repeticion::Alguna(b)),
        Ok(crate::repeticion::Repeticion::Rango { min, max }) => Ok(Repeticion::Rango { min, max }),
        Err(_) => Err(Error::ErrorEnLlaves),
    }
}

/// Reads the contents of braces, up to and including `}`: commas and digits are
/// kept, with the digits' values; any other character is an error.
fn leer_contenido_llave(chars_iter: &mut Lector) -> (r: Result<(Vec<char>, Vec<usize>), Error>)
    ensures
        match leer_llave(old(chars_iter).restantes(), seq![], seq![]) {
            LecturaLlave::Leida { contenido, rangos, resto } => {
                &&& r matches Ok((c, g)) && c@ == contenido && g@ == rangos
                &&& forall|t: int|
                    0 <= t < contenido.len() ==> #[trigger] contenido[t] == ',' || es_ascii_digito(
                        contenido[t],
                    )
                &&& final(chars_iter).restantes() == resto
                &&& contenido.len() > 0 && contenido[0] != ',' ==> rangos.len() >= 1
                &&& contenido.len() >= 2 && contenido[0] != ',' && contenido.last() != ',' ==> rangos.len() >= 2
            },
            LecturaLlave::NoDigito { resto } => {
                &&& r == Err::<(Vec<char>, Vec<usize>), Error>(Error::ErrorEnLlaves)
                &&& final(chars_iter).restantes() == resto
            },
        },
{
    let mut contenido: Vec<char> = Vec::new();
    let mut rangos: Vec<usize> = Vec::new();
    let ghost inicio = chars_iter.restantes();
    loop
        invariant_except_break
            leer_llave(chars_iter.restantes(), contenido@, rangos@) == leer_llave(inicio, seq![], seq![]),
        invariant
            inicio == old(chars_iter).restantes(),
            contenido@.len() > 0 && contenido@[0] != ',' ==> rangos@.len() >= 1,
            contenido@.len() >= 2 && contenido@[0] != ',' && contenido@.last() != ',' ==> rangos@.len() >= 2,
            contenido@.len() > 0 ==> (contenido@[0] == ',' || es_ascii_digito(contenido@[0])),
            forall|t: int|
                0 <= t < contenido@.len() ==> #[trigger] contenido@[t] == ',' || es_ascii_digito(
                    contenido@[t],
                ),
        ensures
            leer_llave(inicio, seq![], seq![]) == (LecturaLlave::Leida {
                contenido: contenido@,
                rangos: rangos@,
                resto: chars_iter.restantes(),
            }),
        decreases chars_iter.restantes().len(),
    {
        let c = match chars_iter.siguiente() {
            Some(c) => c,
            None => break,
        };
        if c == ',' {
            contenido.push(c);
        } else if c == LLAVE_CERRADA {
            break;
        } else {
            contenido.push(c);
            match digito(c) {
                Some(cant) => rangos.push(cant),
                None => return Err(Error::ErrorEnLlaves),
            }
        }
    }
    Ok((contenido, rangos))
}

/// A copy of the steps.
fn copiar_pasos(pasos: &Vec<StepRegex>) -> (r: Vec<StepRegex>)
    ensures
        vista_steps(r@) == vista_steps(pasos@),
{
    let mut copia: Vec<StepRegex> = Vec::new();
    let n = pasos.len();
    for i in 0..n
        invariant
            n == pasos.len(),
            vista_steps(copia@) == vista_steps(pasos@).take(i as int),
    {
        let p = pasos[i].clone();
        proof { lema_vista_push(copia@, p); }
        copia.push(p);
        assert(vista_steps(pasos@).take(i + 1) =~= vista_steps(pasos@).take(i as int).push(p@));
    }
    assert(vista_steps(pasos@).take(n as int) =~= vista_steps(pasos@));
    copia
}

/// Whether the exec result of reading one character agrees with the outcome
/// `esperado`.
pub open spec fn cumple_fabricar(
    res: Result<Option<StepRegex>, Error>,
    pasos: Seq<PasoV>,
    resto: Seq<char>,
    esperado: Analisis,
) -> bool {
    match esperado {
        Analisis::Listo { pasos: p, resto: r } => {
            &&& resto == r
            &&& match res {
                Ok(Some(paso)) => pasos.push(paso@) == p,
                Ok(None) => pasos == p,
                Err(_) => false,
            }
        },
        Analisis::Falla { error, pasos: p, resto: r } => {
            &&& res == Err::<Option<StepRegex>, Error>(error)
            &&& pasos == p
            &&& resto == r
        },
        Analisis::Aborta => false,
    }
}

/// What one character of the expression gives: a new step, a change to the
/// previous step, nothing, or an error.
fn fabricar_paso_caracter(c: char, steps: &mut Vec<StepRegex>, chars_iter: &mut Lector) -> (r: Result<Option<StepRegex>, Error>)
    requires
        !(fabricar_paso(c, vista_steps(old(steps)@), old(chars_iter).restantes()) is Aborta),
    ensures
        cumple_fabricar(r, vista_steps(final(steps)@), final(chars_iter).restantes(),
            fabricar_paso(c, vista_steps(old(steps)@), old(chars_iter).restantes())),
{
    let step = if c == PUNTO {
        Some(StepRegex { repeticiones: Repeticion::Exacta(1, false), caracter_interno: Caracter::Comodin })
    } else if ('a' <= c && c <= 'z') || ('A' <= c && c <= 'Z') || ('0' <= c && c <= '9') || c == ' ' {
        Some(StepRegex { repeticiones: Repeticion::Exacta(1, false), caracter_interno: Caracter::Literal(c) })
    } else if c == LLAVE_ABIERTA {
        if steps.len() > 0 {
            let n = steps.len();
            if no_hay_anterior(&steps[n - 1]) {
                return Err(Error::CaracterNoProcesable);
            } else {
                let (contenido, _rangos) = leer_contenido_llave(chars_iter)?;
                let repeticion = match decidir(&contenido) {
                    Ok(repeticion) => repeticion,
                    Err(error) => return Err(error),
                };
                fijar_repeticion(steps, repeticion);
            }
        }
        None
    } else if c == CORCHETE_ABIERTO {
        match conseguir_lista(chars_iter) {
            Ok(contenido) => Some(StepRegex {
                repeticiones: Repeticion::Exacta(1, contenido.1),
                caracter_interno: Caracter::Serie(contenido.0),
            }),
            Err(error) => return Err(error),
        }
    } else if c == INTERROGACION {
        if steps.len() > 0 {
            let n = steps.len();
            if no_hay_anterior(&steps[n - 1]) {
                return Err(Error::ErrorEnRepeticion);
            } else {
                fijar_repeticion(steps, Repeticion::Rango { min: Some(0), max: Some(1) });
            }
        }
        None
    } else if c == ASTERISCO {
        if steps.len() > 0 {
            let n = steps.len();
            if no_hay_anterior(&steps[n - 1]) {
                return Err(Error::ErrorEnRepeticion);
            } else {
                match conseguir_lista(chars_iter) {
                    Ok((_, negado)) => fijar_repeticion(steps, Repeticion::Alguna(negado)),
                    Err(error) => return Err(error),
                };
            }
        }
        None
    } else if c == MAS {
        if steps.len() > 0 {
            let n = steps.len();
            if no_hay_anterior(&steps[n - 1]) {
                return Err(Error::ErrorEnRepeticion);
            } else {
                fijar_repeticion(steps, Repeticion::Rango { min: Some(1), max: None });
            }
        }
        None
    } else if c == BARRA {
        match chars_iter.siguiente() {
            Some(literal) => Some(StepRegex {
                repeticiones: Repeticion::Exacta(1, false),
                caracter_interno: Caracter::Literal(literal),
            }),
            None => return Err(Error::CaracterNoProcesable),
        }
    } else if c == DOLAR {
        Some(StepRegex { repeticiones: Repeticion::Exacta(1, false), caracter_interno: Caracter::Dolar })
    } else if c == CARET {
        None
    } else if c == FUNCION_OR {
        None
    } else {
        return Err(Error::CaracterNoProcesable);
    };
    Ok(step)
}

/// Adds to `steps` the steps that the characters of `chars_iter` stand for, and
/// gives them back. A character that cannot be read, malformed braces and a
/// repetition with nothing to repeat are errors.
pub fn agregar_pasos(steps: &mut Vec<StepRegex>, chars_iter: &mut Lector) -> (r: Result<Vec<StepRegex>, Error>)
    ensures
        match analizar(vista_steps(old(steps)@), old(chars_iter).restantes()) {
            Analisis::Listo { pasos: p, resto } => {
                &&& r matches Ok(v) && vista_steps(v@) == p
                &&& vista_steps(final(steps)@) == p
                &&& final(chars_iter).restantes() == resto
            },
            Analisis::Falla { error, pasos: p, resto } => {
                &&& r == Err::<Vec<StepRegex>, Error>(error)
                &&& vista_steps(final(steps)@) == p
                &&& final(chars_iter).restantes() == resto
            },
            Analisis::Aborta => false,
        },
{
    proof {
        lema_analizar_no_aborta(vista_steps(steps@), chars_iter.restantes());
    }
    let ghost objetivo = analizar(vista_steps(steps@), chars_iter.restantes());
    loop
        invariant
            analizar(vista_steps(steps@), chars_iter.restantes()) == objetivo,
            objetivo == analizar(vista_steps(old(steps)@), old(chars_iter).restantes()),
            !(objetivo is Aborta),
        ensures
            analizar(vista_steps(steps@), chars_iter.restantes()) == objetivo,
            chars_iter.restantes().len() == 0,
        decreases chars_iter.restantes().len(),
    {
        let ghost antes = chars_iter.restantes();
        let ghost pasos_antes = vista_steps(steps@);
        let c = match chars_iter.siguiente() {
            Some(c) => c,
            None => break,
        };
        proof {
            lema_fabricar_consume(c, pasos_antes, chars_iter.restantes());
        }
        match fabricar_paso_caracter(c, steps, chars_iter) {
            Ok(Some(p)) => {
                proof { lema_vista_push(steps@, p); }
                steps.push(p);
            },
            Ok(None) => {},
            Err(e) => {
                assert(analizar(pasos_antes, antes) == fabricar_paso(c, pasos_antes, antes.drop_first()));
                return Err(e);
            },
        }
    }
    Ok(copiar_pasos(steps))
}

/// Puts `.*` in front of the steps when the expression does not start with `^`.
fn definir_uso_de_caret(expression: &Vec<char>, steps: &mut Vec<StepRegex>)
    ensures
        vista_steps(final(steps)@) == vista_steps(old(steps)@) + pasos_iniciales(expression@),
{
    if !(expression.len() > 0 && expression[0] == CARET) {
        let paso = StepRegex { repeticiones: Repeticion::Alguna(false), caracter_interno: Caracter::Comodin };
        proof { lema_vista_push(steps@, paso); }
        steps.push(paso);
        assert(vista_steps(steps@) =~= vista_steps(old(steps)@) + pasos_iniciales(expression@));
    } else {
        assert(vista_steps(steps@) =~= vista_steps(old(steps)@) + pasos_iniciales(expression@));
    }
}

/// Checks that braces and brackets are balanced and that no `|` stands inside
/// them.
fn expresion_escrita_correctamente(expresion: &str) -> (r: Result<(), Error>)
    requires
        !(revisar(expresion@, 0, 0) is Aborta),
    ensures
        match revisar(expresion@, 0, 0) {
            Revision::Correcta => r is Ok,
            Revision::Incorrecta(e) => r == Err::<(), Error>(e),
            Revision::Aborta => false,
        },
{
    let mut cont_llaves: i32 = 0;
    let mut cont_corchetes: i32 = 0;
    let ghost objetivo = revisar(expresion@, 0, 0);
    assert(expresion@.skip(0) =~= expresion@);
    for c in iter: expresion.chars()
        invariant
            iter.seq() == expresion@,
            objetivo == revisar(expresion@, 0, 0),
            !(objetivo is Aborta),
            revisar(expresion@.skip(iter.index() as int), cont_llaves as int, cont_corchetes as int) == objetivo,
    {
        let ghost resto = expresion@.skip(iter.index() as int);
        assert(resto[0] == c);
        assert(resto.drop_first() =~= expresion@.skip(iter.index() + 1));
        if c == LLAVE_ABIERTA {
            cont_llaves += 1;
        } else if c == LLAVE_CERRADA {
            if cont_llaves <= 0 {
                return Err(Error::ErrorEnLlaves);
            }
            cont_llaves -= 1;
        } else if c == CORCHETE_ABIERTO {
            cont_corchetes += 1;
        } else if c == CORCHETE_CERRADO {
            if cont_corchetes <= 0 {
                return Err(Error::ErrorEnCorchetes);
            }
            cont_corchetes -= 1;
        } else if c == FUNCION_OR {
            if cont_llaves != 0 || cont_corchetes != 0 {
                return Err(Error::ErrorEnFuncionOR);
            }
        }
    }
    if cont_llaves != 0 {
        return Err(Error::ErrorEnLlaves);
    }
    if cont_corchetes != 0 {
        return Err(Error::ErrorEnCorchetes);
    }
    Ok(())
}

///Realiza un backtrack en la expresión regular.
fn backtrack(
    actual: StepRegex,
    evaluados: &mut Vec<StepEvaluado>,
    siguiente: &mut VecDeque<StepRegex>,
) -> (r: Option<usize>)
    requires
        suma_tam(vista_step_evaluados(old(evaluados)@)) <= usize::MAX,
    ensures
        match retroceso(vista_step_evaluados(old(evaluados)@), seq![actual@] + vista_steps(old(siguiente)@), 0) {
            Some((t, p, c)) => {
                &&& r == Some(t as usize)
                &&& vista_step_evaluados(final(evaluados)@) == p
                &&& vista_steps(final(siguiente)@) == c
            },
            None => r is None,
        },
{
    let mut back_size: usize = 0;
    let ghost objetivo = retroceso(vista_step_evaluados(evaluados@), seq![actual@] + vista_steps(siguiente@), 0);
    let ghost actual_v = actual@;

    siguiente.push_front(actual);
    assert(vista_steps(siguiente@) =~= seq![actual_v] + vista_steps(old(siguiente)@));

    loop
        invariant
            retroceso(vista_step_evaluados(evaluados@), vista_steps(siguiente@), back_size as nat) == objetivo,
            objetivo == retroceso(vista_step_evaluados(old(evaluados)@), seq![actual_v] + vista_steps(old(siguiente)@), 0),
            actual_v == actual@,
            suma_tam(vista_step_evaluados(evaluados@)) + back_size <= usize::MAX,
        decreases evaluados@.len(),
    {
        let ghost antes = vista_step_evaluados(evaluados@);
        let ghost crudo = evaluados@;
        match evaluados.pop() {
            Some(paso_ev) => {
                assert(antes.drop_last() =~= vista_step_evaluados(evaluados@));
                assert(antes.last() == crudo.last()@);
                assert(paso_ev == crudo.last());
                back_size = back_size + paso_ev.match_size;
                if paso_ev.backtrackable {
                    return Some(back_size);
                } else {
                    let ghost cola_antes = vista_steps(siguiente@);
                    siguiente.push_front(paso_ev.paso);
                    assert(vista_steps(siguiente@) =~= seq![paso_ev.paso@] + cola_antes);
                }
            },
            None => {
                assert(antes.len() == 0);
                return None;
            },
        }
    }
}

impl Regex {
    /// The expression read from characters.
    fn desde_caracteres(expression: Vec<char>) -> (r: Result<Self, Error>)
        ensures
            match analizar_expresion(expression@) {
                Analisis::Listo { pasos, .. } => r matches Ok(rx) && rx@ == pasos,
                Analisis::Falla { error, .. } => r matches Err(e) && e == error,
                Analisis::Aborta => false,
            },
    {
        let mut steps: Vec<StepRegex> = Vec::new();
        definir_uso_de_caret(&expression, &mut steps);
        assert(vista_steps(steps@) =~= pasos_iniciales(expression@));
        let mut chars_iter = Lector::desde_vector(expression);
        let steps = agregar_pasos(&mut steps, &mut chars_iter)?;
        Ok(Regex { pasos: steps })
    }

    /// Checks how the expression is written, then matches the line against each
    /// of its alternatives (`|`) in turn, until one matches.
    pub fn es_valida_general(expresion_completa: &str, linea: &str) -> (r: Result<bool, Error>)
        requires
            linea@.len() < usize::MAX,
            valida_general(expresion_completa@, linea@) is Some,
        ensures
            r == valida_general(expresion_completa@, linea@).unwrap(),
    {
        let mut valida = false;

        match expresion_escrita_correctamente(expresion_completa) {
            Ok(_) => {
                let expresiones = crate::texto::a_vector(expresion_completa);
                let ghost objetivo = evaluar_alternativas(expresiones@, linea@);
                let mut inicio: usize = 0;
                assert(expresiones@.skip(0) =~= expresiones@);
                loop
                    invariant_except_break
                        !valida,
                    invariant
                        inicio <= expresiones@.len(),
                        linea@.len() < usize::MAX,
                        objetivo is Some,
                        evaluar_alternativas(expresiones@.skip(inicio as int), linea@) == objetivo,
                        objetivo == valida_general(expresion_completa@, linea@),
                    ensures
                        objetivo == Some(Ok::<bool, Error>(valida)),
                    decreases expresiones@.len() - inicio,
                {
                    let ghost resto = expresiones@.skip(inicio as int);
                    let (exp, fin) = siguiente_parte(&expresiones, inicio);
                    proof {
                        lema_primer_barra(resto);
                    }
                    let regex = match Regex::desde_caracteres(exp) {
                        Ok(regex) => regex,
                        Err(err) => return Err(err),
                    };
                    if regex.es_valida(linea)? {
                        valida = true;
                        break;
                    }
                    if fin >= expresiones.len() {
                        assert(primer_barra(resto) >= resto.len());
                        break;
                    }
                    assert(resto.skip(primer_barra(resto) as int + 1) =~= expresiones@.skip(fin + 1));
                    inicio = fin + 1;
                }
                Ok(valida)
            },
            Err(error) => return Err(error),
        }
    }

    /// `es_valida_general`, where it can be told beforehand that it answers:
    /// `None` for an expression of `i32::MAX` characters or more, or where an
    /// alternative that reads into steps has `$` elsewhere than as its last step
    /// matched at most once.
    pub fn es_valida_general_comprobada(expresion_completa: &str, linea: &str) -> (r: Option<
        Result<bool, Error>,
    >)
        requires
            linea@.len() < usize::MAX,
        ensures
            r matches Some(x) ==> valida_general(expresion_completa@, linea@) == Some(x),
            expresion_completa@.len() < i32::MAX && alternativas_al_final(expresion_completa@)
                ==> r is Some,
    {
        let expresiones = crate::texto::a_vector(expresion_completa);
        if expresiones.len() >= 0x7fff_ffff {
            return None;
        }
        let mut inicio: usize = 0;
        assert(expresiones@.skip(0) =~= expresiones@);
        loop
            invariant
                inicio <= expresiones@.len(),
                expresiones@ == expresion_completa@,
                alternativas_al_final(expresiones@) == alternativas_al_final(
                    expresiones@.skip(inicio as int),
                ),
            ensures
                alternativas_al_final(expresiones@),
            decreases expresiones@.len() - inicio,
        {
            let ghost resto = expresiones@.skip(inicio as int);
            let (exp, fin) = siguiente_parte(&expresiones, inicio);
            proof {
                lema_primer_barra(resto);
                lema_alternativas_al_final(resto);
            }
            let ghost parte = exp@;
            match Regex::desde_caracteres(exp) {
                Ok(regex) => {
                    if !regex.dolar_solo_al_final() {
                        assert(analizar_expresion(parte) matches Analisis::Listo { pasos, .. }
                            && pasos == regex@);
                        assert(!crate::clase::evaluacion::alternativa_al_final(parte));
                        proof {
                            if primer_barra(resto) >= resto.len() {
                                assert(parte =~= resto);
                            }
                        }
                        return None;
                    }
                },
                Err(_) => {},
            }
            if fin >= expresiones.len() {
                assert(resto.take(primer_barra(resto) as int) =~= resto);
                break;
            }
            assert(resto.skip(primer_barra(resto) as int + 1) =~= expresiones@.skip(fin + 1));
            inicio = fin + 1;
        }
        proof {
            ley_expresion_responde(expresion_completa@, linea@);
        }
        Some(Self::es_valida_general(expresion_completa, linea))
    }

    /// Reads an expression into its steps: `.*` in front unless it starts with
    /// `^`, then one step (or a change to the previous one) per character.
    pub fn new(expression: &str) -> (r: Result<Self, Error>)
        ensures
            match analizar_expresion(expression@) {
                Analisis::Listo { pasos, .. } => r matches Ok(rx) && rx@ == pasos,
                Analisis::Falla { error, .. } => r matches Err(e) && e == error,
                Analisis::Aborta => false,
            },
    {
        Self::desde_caracteres(crate::texto::a_vector(expression))
    }

    /// The steps, in order, in a queue.
    fn en_cola(pasos: Vec<StepRegex>) -> (r: VecDeque<StepRegex>)
        ensures
            vista_steps(r@) == vista_steps(pasos@),
    {
        let ghost entrada = pasos@;
        let mut pasos = pasos;
        let mut cola: VecDeque<StepRegex> = VecDeque::new();
        while pasos.len() > 0
            invariant
                pasos@ == entrada.take(pasos@.len() as int),
                pasos@.len() <= entrada.len(),
                vista_steps(cola@) == vista_steps(entrada).subrange(pasos@.len() as int, entrada.len() as int),
            decreases pasos@.len(),
        {
            let ghost antes = vista_steps(cola@);
            let ghost n = pasos@.len();
            let ghost cola_cruda = cola@;
            let p = pasos.pop().unwrap();
            assert(p == entrada[n - 1]);
            cola.push_front(p);
            assert(cola@ =~= seq![p] + cola_cruda);
            assert(vista_steps(cola@) =~= seq![p@] + antes);
            assert(pasos@ =~= entrada.take(pasos@.len() as int));
            assert(vista_steps(cola@) =~= vista_steps(entrada).subrange(pasos@.len() as int, entrada.len() as int));
        }
        assert(vista_steps(entrada).subrange(0, entrada.len() as int) =~= vista_steps(entrada));
        cola
    }

    /// Whether `$` stands only as the last step of the expression, matched at most
    /// once: then matching any ASCII line answers without panicking
    /// (`ley_dolar_al_final`).
    pub fn dolar_solo_al_final(&self) -> (r: bool)
        ensures
            r == dolar_al_final(self@),
    {
        let n = self.pasos.len();
        let ghost v = self@;
        for k in 0..n
            invariant
                n == self.pasos.len(),
                v == self@,
                v == vista_steps(self.pasos@),
                forall|j: int|
                    0 <= j < k && (#[trigger] v[j]).caracter is Dolar ==> j == v.len() - 1 && (
                    v[j].repeticion matches crate::repeticion::Repeticion::Exacta(m, _) && m <= 1),
        {
            assert(v[k as int] == self.pasos@[k as int]@);
            if matches!(self.pasos[k].caracter_interno, Caracter::Dolar) {
                if k + 1 != n {
                    return false;
                }
                match self.pasos[k].repeticiones {
                    Repeticion::Exacta(m, _) => {
                        if m > 1 {
                            return false;
                        }
                    },
                    _ => {
                        return false;
                    },
                }
            }
        }
        true
    }

    /// `es_valida`, where it can be told beforehand that it answers: `None` where
    /// `$` stands elsewhere than as the last step matched at most once.
    pub fn es_valida_comprobada(self, linea: &str) -> (r: Option<Result<bool, Error>>)
        requires
            linea@.len() < usize::MAX,
        ensures
            !dolar_al_final(self@) ==> r is None,
            dolar_al_final(self@) && !linea.is_ascii() ==> r == Some(
                Err::<bool, Error>(Error::FormatoDeLineaNoASCII),
            ),
            dolar_al_final(self@) && linea.is_ascii() ==> r == Some(
                Ok::<bool, Error>(resultado(linea@, self@).unwrap()),
            ),
    {
        if !self.dolar_solo_al_final() {
            return None;
        }
        proof {
            if linea.is_ascii() {
                vstd::string::is_ascii_spec_bytes(linea);
                assert(vstd::utf8::is_ascii_chars(linea@));
                ley_dolar_al_final(self@, linea@);
            }
        }
        Some(self.es_valida(linea))
    }

    /// Matches the line against the steps: each step is matched by its
    /// repetition, and a step that fails makes the matcher backtrack. A line that
    /// is not ASCII is an error.
    pub fn es_valida(self, linea: &str) -> (r: Result<bool, Error>)
        requires
            linea@.len() < usize::MAX,
            linea.is_ascii() ==> resultado(linea@, self@) is Some,
        ensures
            !linea.is_ascii() ==> r == Err::<bool, Error>(Error::FormatoDeLineaNoASCII),
            linea.is_ascii() ==> r == Ok::<bool, Error>(resultado(linea@, self@).unwrap()),
    {
        if !linea.is_ascii() {
            return Err(Error::FormatoDeLineaNoASCII);
        }
        proof {
            vstd::string::is_ascii_spec_bytes(linea);
        }
        let ghost objetivo = resultado(linea@, self@);
        let ghost vista_self = self@;
        let mut cola: VecDeque<StepRegex> = Self::en_cola(self.pasos);
        let mut pila: Vec<StepEvaluado> = Vec::new();
        let mut index: usize = 0;
        assert(vista_step_evaluados(pila@) =~= Seq::<EvaluadoV>::empty());

        loop
            invariant
                linea.is_ascii(),
                linea@.len() < usize::MAX,
                linea.len() == linea@.len(),
                objetivo is Some,
                objetivo == resultado(linea@, vista_self),
                vista_self == self@,
                estado_valido(Estado { cola: vista_steps(cola@), pila: vista_step_evaluados(pila@), indice: index as int }),
                ejecutar(linea@, Estado { cola: vista_steps(cola@), pila: vista_step_evaluados(pila@), indice: index as int }) == objetivo,
            decreases
                potencial(linea@, Estado { cola: vista_steps(cola@), pila: vista_step_evaluados(pila@), indice: index as int }),
                cola@.len(),
        {
            let ghost st = Estado { cola: vista_steps(cola@), pila: vista_step_evaluados(pila@), indice: index as int };
            proof {
                lema_avanzar(linea@, st);
            }
            let ghost cola_cruda = cola@;
            let paso = match cola.pop_front() {
                Some(paso) => paso,
                None => return Ok(true),
            };
            assert(paso == cola_cruda[0]);
            assert(st.cola[0] == paso@);
            assert(vista_steps(cola@) =~= st.cola.drop_first());
            let ghost resto = vista_steps(cola@);
            let repeticiones = paso.repeticiones;
            match repeticiones {
                Repeticion::Exacta(n, negacion) => {
                    let ghost esperado = exacta(linea@, paso@, negacion, n as nat, 0, index as int, resto, st.pila);
                    let ghost i0 = index;
                    let mut tam_coincidencia: usize = 0;
                    let mut k: usize = 0;
                    let mut retrocedio = false;
                    while k < n
                        invariant_except_break
                            exacta(linea@, paso@, negacion, (n - k) as nat, tam_coincidencia as nat, index as int, resto, st.pila) == esperado,
                            vista_steps(cola@) == resto,
                            vista_step_evaluados(pila@) == st.pila,
                            index == i0 + tam_coincidencia,
                            !retrocedio,
                        invariant
                            ejecutar(linea@, st) == objetivo,
                            objetivo == resultado(linea@, vista_self),
                            vista_self == self@,
                            estado_valido(st),
                            linea.is_ascii(),
                            linea@.len() < usize::MAX,
                            linea.len() == linea@.len(),
                            k <= n,
                            i0 == st.indice,
                            suma_tam(st.pila) <= i0,
                            esperado == avanzar(linea@, st),
                            !(esperado is Aborta),
                        ensures
                            retrocedio ==> esperado == Avance::Sigue(Estado { cola: vista_steps(cola@), pila: vista_step_evaluados(pila@), indice: index as int }),
                            !retrocedio ==> {
                                &&& k == n
                                &&& vista_steps(cola@) == resto
                                &&& vista_step_evaluados(pila@) == st.pila
                                &&& index == i0 + tam_coincidencia
                                &&& exacta(linea@, paso@, negacion, 0, tam_coincidencia as nat, index as int, resto, st.pila) == esperado
                            },
                        decreases n - k,
                    {
                        let avance = paso.caracter_interno.coincide(desde(linea, index));
                        proof {
                            lema_coincidencia_acotada(paso@.caracter, linea@.subrange(index as int, linea@.len() as int));
                        }
                        if avance == 0 {
                            proof {
                                lema_retroceso_exec(st.pila, seq![paso@] + resto);
                            }
                            index = index - tam_coincidencia;
                            match backtrack(paso.clone(), &mut pila, &mut cola) {
                                Some(size) => {
                                    index -= size;
                                    retrocedio = true;
                                    break;
                                },
                                None => {
                                    if negacion {
                                        return Ok(true);
                                    } else {
                                        return Ok(false);
                                    }
                                },
                            }
                        } else {
                            tam_coincidencia += avance;
                            index += avance;
                        }
                        k += 1;
                    }
                    if !retrocedio {
                        let e = StepEvaluado { paso, match_size: tam_coincidencia, backtrackable: false };
                        proof { lema_vista_evaluados_push(pila@, e); }
                        pila.push(e);
                        if negacion {
                            return Ok(false);
                        }
                    }
                },
                Repeticion::Alguna(negacion) => {
                    let ghost esperado = alguna(linea@, paso@, negacion, index as int, resto, st.pila);
                    loop
                        invariant
                            ejecutar(linea@, st) == objetivo,
                            objetivo == resultado(linea@, vista_self),
                            vista_self == self@,
                            estado_valido(st),
                            linea.is_ascii(),
                            linea@.len() < usize::MAX,
                            linea.len() == linea@.len(),
                            vista_steps(cola@) == resto,
                            esperado == avanzar(linea@, st),
                            !(esperado is Aborta),
                            alguna(linea@, paso@, negacion, index as int, resto, vista_step_evaluados(pila@)) == esperado,
                        ensures
                            !negacion,
                            esperado == Avance::Sigue(Estado { cola: vista_steps(cola@), pila: vista_step_evaluados(pila@), indice: index as int }),
                        decreases linea@.len() + 4 - index,
                    {
                        let avance = paso.caracter_interno.coincide(desde(linea, index));
                        proof {
                            lema_coincidencia_acotada(paso@.caracter, linea@.subrange(index as int, linea@.len() as int));
                        }
                        if avance != 0 {
                            if negacion {
                                return Ok(false);
                            }
                            index += avance;
                            let e = StepEvaluado { paso: paso.clone(), match_size: avance, backtrackable: true };
                            proof { lema_vista_evaluados_push(pila@, e); }
                            pila.push(e);
                        } else {
                            if negacion {
                                return Ok(false);
                            }
                            break;
                        }
                    }
                },
                Repeticion::Rango { min, max } => {
                    let ghost esperado = avance_rango(linea@, paso@, min, max, resto, st.pila, index as int);
                    let min = min.unwrap_or(0);

                    let max = match max {
                        Some(max) => max,
                        None => linea.len() - index,
                    };
                    let ghost objetivo_rango = rango(linea@, paso@, 0, index as int, st.pila);
                    let mut aux: usize = 0;
                    loop
                        invariant
                            linea.is_ascii(),
                            linea@.len() < usize::MAX,
                            linea.len() == linea@.len(),
                            vista_steps(cola@) == resto,
                            objetivo_rango is Some,
                            rango(linea@, paso@, aux as nat, index as int, vista_step_evaluados(pila@)) == objetivo_rango,
                            aux <= index,
                        ensures
                            objetivo_rango == Some((aux as nat, index as int, vista_step_evaluados(pila@))),
                        decreases linea@.len() + 4 - index,
                    {
                        let avance = paso.caracter_interno.coincide(desde(linea, index));
                        proof {
                            lema_coincidencia_acotada(paso@.caracter, linea@.subrange(index as int, linea@.len() as int));
                        }
                        if avance != 0 {
                            index += avance;
                            aux += 1;
                            let e = StepEvaluado { paso: paso.clone(), match_size: avance, backtrackable: true };
                            proof { lema_vista_evaluados_push(pila@, e); }
                            pila.push(e);
                        } else {
                            break;
                        }
                    }

                    assert(esperado == avanzar(linea@, st));
                    if aux < min || aux > max {
                        assert(esperado == Avance::Termina(false));
                        return Ok(false);
                    }
                },
            }
        }
    }
}

} // verus!
