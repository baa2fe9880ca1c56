use grep_rustico::clase::caracter::Caracter;
use grep_rustico::clase::clase_char::ClaseChar;
use grep_rustico::clase::errors::Error;
use grep_rustico::clase::funcion_or::verificar_funcion_or;
use grep_rustico::clase::regex::Regex;
use grep_rustico::clase::verficacion_inicial::{cantidad_correcta_argumentos, verificar_inicio};

#[test]
fn clase_coincide() {
    assert_eq!(Caracter::Serie(ClaseChar::Simple(vec!['x'])).coincide("x"), 1);
    assert_eq!(Caracter::Serie(ClaseChar::Alnum).coincide("ß"), 2);
    assert_eq!(Caracter::Serie(ClaseChar::Digit).coincide("a"), 0);
    assert_eq!(Caracter::Dolar.coincide(""), 1);
}

#[test]
fn clase_negacion_de_corchete() {
    assert_eq!(Regex::new("^[^x]").unwrap().es_valida("y").unwrap(), true);
    assert_eq!(Regex::new("^[^x]").unwrap().es_valida("x").unwrap(), false);
}

#[test]
fn clase_rango_sin_retroceso() {
    assert_eq!(Regex::new("^a{2,3}").unwrap().es_valida("aaaa").unwrap(), false);
    assert_eq!(Regex::new("^a{2,3}").unwrap().es_valida("aaa").unwrap(), true);
}

#[test]
fn clase_asterisco_lee_lo_que_sigue() {
    assert_eq!(Regex::new("ab*zzz").unwrap().es_valida("a").unwrap(), true);
}

#[test]
fn clase_errores() {
    assert_eq!(Regex::new("{2}").err(), Some(Error::CaracterNoProcesable));
    assert_eq!(Regex::new("a{x}").err(), Some(Error::ErrorEnLlaves));
    assert_eq!(Regex::new("*a").err(), Some(Error::ErrorEnRepeticion));
    assert_eq!(Regex::new("a%").err(), Some(Error::CaracterNoProcesable));
    assert_eq!(Regex::new("abc").unwrap().es_valida("ñ").err(), Some(Error::FormatoDeLineaNoASCII));
    assert_eq!(Regex::es_valida_general("a{2", "aa"), Err(Error::ErrorEnLlaves));
    assert_eq!(Regex::es_valida_general("[ab", "aa"), Err(Error::ErrorEnCorchetes));
    assert_eq!(Regex::es_valida_general("[a|b]", "aa"), Err(Error::ErrorEnFuncionOR));
}

#[test]
fn clase_alternativas() {
    assert_eq!(Regex::es_valida_general("[[:digit:]]|de+f", "hola  abc ").unwrap(), false);
    assert_eq!(Regex::es_valida_general("[[:digit:]]|de+f", "x deef").unwrap(), true);
}

#[test]
fn clase_funcion_or() {
    assert_eq!(verificar_funcion_or("a|b"), true);
    assert_eq!(verificar_funcion_or("ab"), false);
    assert_eq!(verificar_funcion_or("[a|b"), true);
    assert_eq!(verificar_funcion_or("[a]|b"), true);
    assert_eq!(verificar_funcion_or("]a|b"), false);
}

#[test]
fn clase_verificacion_inicial() {
    assert_eq!(cantidad_correcta_argumentos(3), true);
    assert_eq!(cantidad_correcta_argumentos(0), false);
    assert_eq!(
        verificar_inicio(vec!["p".to_string(), "a".to_string(), "f.txt".to_string()]),
        Ok("f.txt".to_string())
    );
    assert_eq!(verificar_inicio(vec!["p".to_string()]), Err(Error::ArgumentosInvalidos));
}

#[test]
fn clase_mensajes() {
    assert_eq!(Error::FallaAbrirArchivo.mensaje(), "Error: No se pudo abrir el archivo.");
    assert_eq!(Error::FormatoDeLineaNoASCII.mensaje(), "Error: La linea ingresada no esta en formato ASCII.");
    assert_eq!(Error::ErrorEnFuncionOR.mensaje(), "Error: No se cumple con el formato para el uso de la funcion OR correctamente.");
}

#[test]
fn clase_patron_simple_busca_en_toda_la_linea() {
    assert_eq!(Regex::es_valida_general("ab", "xxaby"), Ok(true));
    assert_eq!(Regex::es_valida_general("ab", "a b"), Ok(false));
    assert_eq!(Regex::es_valida_general("a.c", "zzabc"), Ok(true));
    assert_eq!(Regex::new("aab").unwrap().es_valida("aaab"), Ok(true));
}

#[test]
fn clase_patron_simple_con_anclas() {
    assert_eq!(Regex::es_valida_general("^ab", "xab"), Ok(false));
    assert_eq!(Regex::es_valida_general("ab$", "xab"), Ok(true));
    assert_eq!(Regex::es_valida_general("ab$", "abx"), Ok(false));
    assert_eq!(Regex::es_valida_general("^a.c$", "abc"), Ok(true));
    assert_eq!(Regex::es_valida_general("^a.c$", "abcd"), Ok(false));
}

#[test]
fn clase_corchete_busca_un_caracter_del_conjunto() {
    assert_eq!(Regex::es_valida_general("[abc]", "xyzb"), Ok(true));
    assert_eq!(Regex::es_valida_general("[abc]", "xyz"), Ok(false));
    assert_eq!(Regex::es_valida_general("[a-c]", "zzb"), Ok(true));
    assert_eq!(Regex::es_valida_general("[a-c]", "zzd"), Ok(false));
}

#[test]
fn clase_posix_en_la_primera_version() {
    assert_eq!(Regex::es_valida_general("[[:digit:]]", "abc"), Ok(false));
    assert_eq!(Regex::es_valida_general("[[:digit:]]", "a1"), Ok(true));
    assert_eq!(Regex::es_valida_general("[[:space:]]", "a b"), Ok(true));
}

#[test]
fn clase_estrella_al_final() {
    assert_eq!(Regex::es_valida_general("abc*", "xab"), Ok(true));
    assert_eq!(Regex::es_valida_general("^ab*", "a"), Ok(true));
    assert_eq!(Regex::es_valida_general("^ab*", "b"), Ok(false));
}

#[test]
fn clase_rango_al_final_no_retrocede() {
    // A range outside its bounds ends the match here, with no backtracking.
    assert_eq!(Regex::es_valida_general("ab?", "abb"), Ok(false));
    assert_eq!(Regex::es_valida_general("ab+", "abac"), Ok(false));
    assert_eq!(Regex::es_valida_general("ab+", "xabb"), Ok(true));
}

#[test]
fn clase_cierre_antes_de_apertura_es_error() {
    assert_eq!(Regex::es_valida_general("a}b{", "ab"), Err(Error::ErrorEnLlaves));
    assert_eq!(Regex::es_valida_general("]a[", "a"), Err(Error::ErrorEnCorchetes));
}

#[test]
fn clase_guion_sin_vecino_izquierdo_no_aporta() {
    assert_eq!(Regex::es_valida_general("[-a]", "xa"), Ok(true));
    assert_eq!(Regex::es_valida_general("[-a]", "-"), Ok(false));
}

#[test]
fn clase_llaves_con_varios_digitos() {
    assert_eq!(Regex::es_valida_general("^a{12}$", "aaaaaaaaaaaa"), Ok(true));
    assert_eq!(Regex::es_valida_general("^a{12}$", "aa"), Ok(false));
    assert_eq!(Regex::new("a{10}").is_ok(), true);
    assert_eq!(Regex::new("a{,}").err(), Some(Error::ErrorEnLlaves));
    assert_eq!(Regex::new("a{3,1}").is_ok(), true);
    assert_eq!(Regex::new("a{1,2,3}").is_ok(), true);
}

#[test]
fn clase_evaluacion_comprobada() {
    assert_eq!(Regex::new("ab$").unwrap().dolar_solo_al_final(), true);
    assert_eq!(Regex::new("a$b").unwrap().es_valida_comprobada("a"), None);
    assert_eq!(Regex::new("ab$").unwrap().es_valida_comprobada("xab"), Some(Ok(true)));
}

#[test]
fn clase_evaluacion_general_comprobada() {
    assert_eq!(Regex::es_valida_general_comprobada("ab|c$", "xc"), Some(Ok(true)));
    assert_eq!(Regex::es_valida_general_comprobada("a$b|c", "c"), None);
}
