use grep_rustico::caracter::Caracter;
use grep_rustico::clase_char::ClaseChar;
use grep_rustico::errors::Error;
use grep_rustico::regex::Regex;
use grep_rustico::egrep::errores::Error as ErrorEgrep;

#[test]
fn coincide_literal_y_utf8() {
    assert_eq!(Caracter::Literal('a').coincide("abc"), 1);
    assert_eq!(Caracter::Literal('a').coincide("bac"), 0);
    assert_eq!(Caracter::Literal('ñ').coincide("ñu"), 2);
    assert_eq!(Caracter::Literal('a').coincide(""), 0);
}

#[test]
fn coincide_comodin_y_dolar() {
    assert_eq!(Caracter::Comodin.coincide("€x"), 3);
    assert_eq!(Caracter::Comodin.coincide("😀"), 4);
    assert_eq!(Caracter::Comodin.coincide(""), 0);
    assert_eq!(Caracter::Dolar.coincide(""), 1);
    assert_eq!(Caracter::Dolar.coincide("a"), 0);
}

#[test]
fn coincide_clases_unicode() {
    assert_eq!(Caracter::Serie(ClaseChar::Alnum(false)).coincide("é"), 2);
    assert_eq!(Caracter::Serie(ClaseChar::Lower(false)).coincide("é"), 2);
    assert_eq!(Caracter::Serie(ClaseChar::Upper(false)).coincide("É"), 2);
    assert_eq!(Caracter::Serie(ClaseChar::Upper(false)).coincide("é"), 0);
    assert_eq!(Caracter::Serie(ClaseChar::Space(false)).coincide("\u{3000}x"), 3);
    assert_eq!(Caracter::Serie(ClaseChar::Alpha(false)).coincide("é"), 0);
    assert_eq!(Caracter::Serie(ClaseChar::Digit(false)).coincide("7"), 1);
    assert_eq!(Caracter::Serie(ClaseChar::Punct(false)).coincide("~"), 1);
}

#[test]
fn coincide_clases_negadas() {
    assert_eq!(Caracter::Serie(ClaseChar::Alpha(true)).coincide("1"), 1);
    assert_eq!(Caracter::Serie(ClaseChar::Alpha(true)).coincide("a"), 0);
    assert_eq!(Caracter::Serie(ClaseChar::Simple(vec!['x', 'y'], true)).coincide("z"), 1);
    assert_eq!(Caracter::Serie(ClaseChar::Simple(vec!['x', 'y'], false)).coincide("y"), 1);
    assert_eq!(Caracter::Serie(ClaseChar::Simple(vec!['x', 'y'], false)).coincide("z"), 0);
}

#[test]
fn linea_no_ascii_es_error() {
    let regex = Regex::new("abc").unwrap();
    assert_eq!(regex.es_valida("añb").err(), Some(Error::FormatoDeLineaNoASCII));
}

#[test]
fn errores_al_leer_expresiones() {
    assert_eq!(Regex::new("a{x}").err(), Some(Error::ErrorEnLlaves));
    assert_eq!(Regex::new("a{3,1}").err(), Some(Error::ErrorEnLlaves));
    assert_eq!(Regex::new("a{}").err(), Some(Error::ErrorEnLlaves));
    assert_eq!(Regex::new("*a").err(), Some(Error::ErrorEnRepeticion));
    assert_eq!(Regex::new("a%").err(), Some(Error::CaracterNoProcesable));
    assert_eq!(Regex::new("a\\").err(), Some(Error::CaracterNoProcesable));
}

#[test]
fn errores_de_escritura() {
    assert_eq!(Regex::es_valida_general("a{2", "aa"), Err(Error::ErrorEnLlaves));
    assert_eq!(Regex::es_valida_general("[ab", "aa"), Err(Error::ErrorEnCorchetes));
    assert_eq!(Regex::es_valida_general("a{1|2}", "aa"), Err(Error::ErrorEnFuncionOR));
    assert_eq!(Regex::es_valida_general("a|%", "b"), Err(Error::CaracterNoProcesable));
}

#[test]
fn caret_ancla_al_inicio() {
    assert_eq!(Regex::new("bc").unwrap().es_valida("abc").unwrap(), true);
    assert_eq!(Regex::new("^bc").unwrap().es_valida("abc").unwrap(), false);
    assert_eq!(Regex::new("^ab").unwrap().es_valida("abc").unwrap(), true);
}

#[test]
fn literales_como_subcadena() {
    assert_eq!(Regex::new("b.d").unwrap().es_valida("xxabcdyy").unwrap(), true);
    assert_eq!(Regex::new("b.d").unwrap().es_valida("xxabcyy").unwrap(), false);
    assert_eq!(Regex::new("").unwrap().es_valida("").unwrap(), true);
    assert_eq!(Regex::new("hola mundo").unwrap().es_valida("dijo hola mundo").unwrap(), true);
    assert_eq!(Regex::new("hola mundo").unwrap().es_valida("dijo hola  mundo").unwrap(), false);
}

#[test]
fn alternativas_una_basta() {
    assert_eq!(Regex::es_valida_general("xyz|bc|q", "abcd").unwrap(), true);
    assert_eq!(Regex::es_valida_general("xyz|q", "abcd").unwrap(), false);
    assert_eq!(Regex::es_valida_general("xyz|", "abcd").unwrap(), true);
}

#[test]
fn rango_de_caracteres() {
    assert_eq!(Regex::new("[ -~]").unwrap().es_valida("x").unwrap(), true);
    assert_eq!(Regex::new("^[b-d]+$").unwrap().es_valida("bcd").unwrap(), true);
    assert_eq!(Regex::new("^[b-d]+$").unwrap().es_valida("bcde").unwrap(), false);
    assert_eq!(Regex::new("[z-a]").unwrap().es_valida("m").unwrap(), false);
}

#[test]
fn mensajes_de_error() {
    assert_eq!(Error::FallaAbrirArchivo.mensaje(), "Error: No se pudo abrir el archivo.");
    assert_eq!(Error::FallaLecturaArchivo.mensaje(), "Error: No se pudo leer el archivo.");
    assert_eq!(Error::ArgumentosInvalidos.mensaje(), "Error: La cantidad de argumentos no es válida.");
    assert_eq!(Error::CaracterNoProcesable.mensaje(), "Error: Ingresaste un caracter no posible de procesar.");
    assert_eq!(Error::FormatoDeLineaNoASCII.mensaje(), "Error: La linea ingresada no esta en formato ASCII.");
    assert_eq!(Error::ErrorEnLlaves.mensaje(), "Error: No se cumple con el formato para el uso de las llaves correctamente.");
    assert_eq!(Error::ErrorEnCorchetes.mensaje(), "Error: No se cumple con el formato para el uso de los corchetes correctamente.");
    assert_eq!(Error::ErrorEnRepeticion.mensaje(), "Error: No se cumple con el formato para el uso de las repeticiones correctamente.");
    assert_eq!(Error::ErrorEnFuncionOR.mensaje(), "Error: No se cumple con el formato para el uso de la funcion OR correctamente.");
}

#[test]
fn mensajes_de_egrep() {
    assert_eq!(ErrorEgrep::FallaAbrirArchivo.mensaje(), "Error: No se pudo abrir el archivo.");
    assert_eq!(ErrorEgrep::FallaLecturaArchivo.mensaje(), "Error: No se pudo leer el archivo.");
    assert_eq!(ErrorEgrep::ArgumentosInvalidos.mensaje(), "Error: La cantidad de argumentos no es válida.");
}

#[test]
fn patron_simple_busca_en_toda_la_linea() {
    assert_eq!(Regex::es_valida_general("ab", "xxaby"), Ok(true));
    assert_eq!(Regex::es_valida_general("ab", "a b"), Ok(false));
    assert_eq!(Regex::es_valida_general("a.c", "zzabc"), Ok(true));
    assert_eq!(Regex::es_valida_general("a.c", "ac"), Ok(false));
    assert_eq!(Regex::es_valida_general("", "cualquier cosa"), Ok(true));
    assert_eq!(Regex::new("aab").unwrap().es_valida("aaab"), Ok(true));
}

#[test]
fn patron_simple_con_anclas() {
    assert_eq!(Regex::es_valida_general("^ab", "abx"), Ok(true));
    assert_eq!(Regex::es_valida_general("^ab", "xab"), Ok(false));
    assert_eq!(Regex::es_valida_general("ab$", "xab"), Ok(true));
    assert_eq!(Regex::es_valida_general("ab$", "abx"), Ok(false));
    assert_eq!(Regex::es_valida_general("^a.c$", "abc"), Ok(true));
    assert_eq!(Regex::es_valida_general("^a.c$", "abcd"), Ok(false));
    assert_eq!(Regex::es_valida_general("^$", ""), Ok(true));
    assert_eq!(Regex::es_valida_general("^$", "a"), Ok(false));
}

#[test]
fn corchete_busca_un_caracter_del_conjunto() {
    assert_eq!(Regex::es_valida_general("[abc]", "xyzb"), Ok(true));
    assert_eq!(Regex::es_valida_general("[abc]", "xyz"), Ok(false));
    assert_eq!(Regex::es_valida_general("[a-c]", "zzb"), Ok(true));
    assert_eq!(Regex::es_valida_general("[a-c]", "zzd"), Ok(false));
    assert_eq!(Regex::es_valida_general("[^abc]", "abc"), Ok(false));
    assert_eq!(Regex::es_valida_general("[^abc]", "abz"), Ok(true));
}

#[test]
fn clase_posix_busca_un_caracter_de_la_clase() {
    assert_eq!(Regex::es_valida_general("[[:digit:]]", "abc1"), Ok(true));
    assert_eq!(Regex::es_valida_general("[[:digit:]]", "abc"), Ok(false));
    assert_eq!(Regex::es_valida_general("[^[:digit:]]", "123"), Ok(false));
    assert_eq!(Regex::es_valida_general("[^[:digit:]]", "12a"), Ok(true));
    assert_eq!(Regex::es_valida_general("[[:upper:]]", "abC"), Ok(true));
}

#[test]
fn rango_no_cede_su_minimo() {
    // Backtracking gives back only the matches of a range beyond its minimum.
    assert_eq!(Regex::es_valida_general("^a{2,3}ab", "aab"), Ok(false));
    assert_eq!(Regex::es_valida_general("^a{2,3}ab", "aaab"), Ok(true));
    assert_eq!(Regex::es_valida_general("^a{2,3}b", "ab"), Ok(false));
    assert_eq!(Regex::new("a+ab").unwrap().es_valida("ab"), Ok(false));
}

#[test]
fn exacta_que_falla_vuelve_a_su_inicio() {
    assert_eq!(Regex::new("a{2}b").unwrap().es_valida("aab"), Ok(true));
    assert_eq!(Regex::new("a{2}b").unwrap().es_valida("xaaab"), Ok(true));
    assert_eq!(Regex::new("a{2}b").unwrap().es_valida("ab"), Ok(false));
}

#[test]
fn repeticion_al_final_de_un_patron_simple() {
    assert_eq!(Regex::es_valida_general("abc*", "xab"), Ok(true));
    assert_eq!(Regex::es_valida_general("abc?", "xab"), Ok(true));
    assert_eq!(Regex::es_valida_general("abc+", "xab"), Ok(false));
    assert_eq!(Regex::es_valida_general("abc+", "xabcc"), Ok(true));
    assert_eq!(Regex::es_valida_general("^ab*", "a"), Ok(true));
    assert_eq!(Regex::es_valida_general("^ab+", "ba"), Ok(false));
}

#[test]
fn cierre_antes_de_apertura_es_error() {
    assert_eq!(Regex::es_valida_general("a}b{", "ab"), Err(Error::ErrorEnLlaves));
    assert_eq!(Regex::es_valida_general("]a[", "a"), Err(Error::ErrorEnCorchetes));
    assert_eq!(Regex::es_valida_general("[a]b", "xab"), Ok(true));
}

#[test]
fn llave_sin_paso_anterior_es_error() {
    assert_eq!(Regex::new("{2}a").err(), Some(Error::ErrorEnRepeticion));
    assert_eq!(Regex::es_valida_general("{2}a", "aa"), Err(Error::ErrorEnRepeticion));
}

#[test]
fn llaves_con_varios_digitos() {
    assert_eq!(Regex::es_valida_general("^a{12}$", "aaaaaaaaaaaa"), Ok(true));
    assert_eq!(Regex::es_valida_general("^a{12}$", "aa"), Ok(false));
    assert_eq!(Regex::es_valida_general("^a{10,11}$", "aaaaaaaaaa"), Ok(true));
    assert_eq!(Regex::es_valida_general("^ba{,10}$", "baaa"), Ok(true));
    assert_eq!(Regex::new("a{10}").is_ok(), true);
    assert_eq!(Regex::new("a{,}").err(), Some(Error::ErrorEnLlaves));
    assert_eq!(Regex::new("a{1,2,3}").is_ok(), true);
    assert_eq!(Regex::es_valida_general("^ba{1,2,3}$", "baa"), Ok(true));
    assert_eq!(Regex::es_valida_general("^ba{1,2,3}$", "baaa"), Ok(false));
    assert_eq!(Regex::es_valida_general("^ba{1,2,}$", "baaaa"), Ok(true));
    assert_eq!(Regex::es_valida_general("^ba{,2,3}$", "baaa"), Ok(false));
    assert_eq!(Regex::new("a{12,3}").err(), Some(Error::ErrorEnLlaves));
    assert_eq!(Regex::new("a{99999999999999999999999}").err(), Some(Error::ErrorEnLlaves));
}

#[test]
fn guion_sin_vecino_izquierdo_no_aporta() {
    assert_eq!(Regex::es_valida_general("[-a]", "xa"), Ok(true));
    assert_eq!(Regex::es_valida_general("[-a]", "-"), Ok(false));
    assert_eq!(Regex::es_valida_general("[a-]", "-"), Ok(false));
}

#[test]
fn dolar_en_medio_no_casa_nada_despues() {
    assert_eq!(Regex::new("a$b").unwrap().es_valida("a"), Ok(false));
    assert_eq!(Regex::new("a$b").unwrap().es_valida("ab"), Ok(false));
    assert_eq!(Regex::es_valida_general("a$b|c", "c"), Ok(true));
    assert_eq!(Regex::es_valida_general("ab|c$", "xc"), Ok(true));
    assert_eq!(Regex::es_valida_general("ab|c$", "cx"), Ok(false));
    assert_eq!(Regex::new("a$?").unwrap().es_valida("ab"), Ok(true));
    assert_eq!(Regex::new("a$*").unwrap().es_valida("a"), Ok(true));
    assert_eq!(Regex::new("a${0}b").unwrap().es_valida("ab"), Ok(true));
}

#[test]
fn repeticion_que_cede_y_se_retoma() {
    // A repeated step keeps its repetition when the match is tried again further
    // along the line.
    assert_eq!(Regex::es_valida_general("de+f", "deef de"), Ok(true));
    assert_eq!(Regex::es_valida_general("de+f", "deef"), Ok(true));
    assert_eq!(Regex::es_valida_general("de+f", "df de"), Ok(false));
    assert_eq!(Regex::es_valida_general("a.*b.*c", "xaybzc"), Ok(true));
    assert_eq!(Regex::es_valida_general("a*ab", "aaab"), Ok(true));
    assert_eq!(Regex::es_valida_general("a{2,3}ab", "aaab"), Ok(true));
    assert_eq!(Regex::es_valida_general("a{2,3}ab", "aab"), Ok(false));
    assert_eq!(Regex::es_valida_general("x?y+z{2}", "yyzz"), Ok(true));
}

#[test]
fn alternativas_en_cualquier_orden() {
    for linea in ["xab", "cd", "zz", "abcd", ""] {
        let ab_cd = Regex::es_valida_general("ab|cd", linea);
        let cd_ab = Regex::es_valida_general("cd|ab", linea);
        assert_eq!(ab_cd, cd_ab);
        let una = Regex::es_valida_general("ab", linea) == Ok(true)
            || Regex::es_valida_general("cd", linea) == Ok(true);
        assert_eq!(ab_cd, Ok(una));
    }
}

#[test]
fn coincidencia_en_cualquier_lugar_o_al_inicio() {
    assert_eq!(Regex::new("b+c").unwrap().es_valida("abbbcx"), Ok(true));
    assert_eq!(Regex::new("^b+c").unwrap().es_valida("abbbcx"), Ok(false));
    assert_eq!(Regex::new("^ab+c").unwrap().es_valida("abbbcx"), Ok(true));
    assert_eq!(Regex::new("c$").unwrap().es_valida("abbbcx"), Ok(false));
    assert_eq!(Regex::new("x$").unwrap().es_valida("abbbcx"), Ok(true));
    assert_eq!(Regex::new("").unwrap().es_valida("cualquiera"), Ok(true));
    assert_eq!(Regex::new("^$").unwrap().es_valida(""), Ok(true));
    assert_eq!(Regex::new("^$").unwrap().es_valida("a"), Ok(false));
}

#[test]
fn escapes_se_leen_como_literales() {
    assert_eq!(Regex::new("\\.\\*").unwrap().es_valida("a.*b"), Ok(true));
    assert_eq!(Regex::new("\\.\\*").unwrap().es_valida("ab"), Ok(false));
    assert_eq!(Regex::new("a\\+{2}").unwrap().es_valida("a++"), Ok(true));
    assert_eq!(Regex::new("a\\+{2}").unwrap().es_valida("a+"), Ok(false));
}
