use grep_rustico::regex::Regex;


#[test]
fn test01_literales() {
    let regex = Regex::new("abcd");
    assert_eq!(regex.unwrap().es_valida("abcdefg").unwrap(), true);
}

#[test]
fn test02_literales() {
    let regex = Regex::new("^abcd");
    assert_eq!(regex.unwrap().es_valida("abcdefg").unwrap(), true);
}

#[test]
fn test03_literales() {
    let regex = Regex::new("^abcd");
    assert_eq!(regex.unwrap().es_valida("ab abcdefg").unwrap(), false);
}

#[test]
fn test04_literales() {
    let regex = Regex::new("abcd");
    assert_eq!(regex.unwrap().es_valida("efgabcd").unwrap(), true);
}

#[test]
fn test05_literales() {
    let regex = Regex::new("abcd");
    assert_eq!(regex.unwrap().es_valida("abcefg").unwrap(), false);
}

#[test]
fn test06_punto() {
    let regex = Regex::new("ab.cd");
    assert_eq!(regex.unwrap().es_valida("ab0cd").unwrap(), true);
}

#[test]
fn test07_punto() {
    let regex = Regex::new("ab.cd");
    assert_eq!(regex.unwrap().es_valida("abcd").unwrap(), false);
}

#[test]
fn test08_regex_con_asterisk() {
    let regex = Regex::new("ab*c");
    assert_eq!(regex.unwrap().es_valida("abbbbbbcd").unwrap(), true);
}

#[test]
fn test08_punto_asterisco() {
    let regex = Regex::new("ab.*cd");
    assert_eq!(regex.unwrap().es_valida("abcd").unwrap(), true);
}

#[test]
fn test09_punto_asterisco() {
    let regex = Regex::new("ab.*cd");
    assert_eq!(regex.unwrap().es_valida("abaaaaaacd").unwrap(), true);
}

#[test]
fn test10_corchete() {
    let regex = Regex::new("a[bc]d");
    assert_eq!(regex.unwrap().es_valida("abd").unwrap(), true);
}

#[test]
fn test11_corchete() {
    let regex = Regex::new("a[bc]d");
    assert_eq!(regex.unwrap().es_valida("acd").unwrap(), true);
}

#[test]
fn test12_corchete() {
    let regex = Regex::new("a[bc]d");
    assert_eq!(regex.unwrap().es_valida("afd").unwrap(), false);
}

#[test]
fn test13_barra() {
    let regex = Regex::new("a\\*");
    assert_eq!(regex.unwrap().es_valida("a*cds").unwrap(), true);
}

#[test]
fn test14_mas() {
    let regex = Regex::new("hola+");
    assert_eq!(regex.unwrap().es_valida("holaa").unwrap(), true);
}

#[test]
fn test15_mas() {
    let regex = Regex::new("hola+");
    assert_eq!(regex.unwrap().es_valida("hol").unwrap(), false);
}

#[test]
fn test16_interrogacion() {
    let regex = Regex::new("holi?s");
    assert_eq!(regex.unwrap().es_valida("holis").unwrap(), true);
}

#[test]
fn test17_interrogacion() {
    let regex = Regex::new("holi?s");
    assert_eq!(regex.unwrap().es_valida("hols").unwrap(), true);
}

#[test]
fn test18_interrogacion() {
    let regex = Regex::new("hola?");
    assert_eq!(regex.unwrap().es_valida("holaaaaa").unwrap(), true);
}

#[test]
fn test19_llave_exacto() {
    let regex = Regex::new("a{2}");
    assert_eq!(regex.unwrap().es_valida("a").unwrap(), false);
}

#[test]
fn test20_llave_exacto() {
    let regex = Regex::new("ba{2}");
    assert_eq!(regex.unwrap().es_valida("baa").unwrap(), true);
}

#[test]
fn test21_llave_exacto() {
    let regex = Regex::new("ba{2,3}c");
    assert_eq!(regex.unwrap().es_valida("bac baac baaac").unwrap(), true);
}

#[test]
fn test22_llave_minimo() {
    let regex = Regex::new("ba{2,}c");
    assert_eq!(regex.unwrap().es_valida("baaaac").unwrap(), true);
}

#[test]
fn test23_llave_minimo() {
    let regex = Regex::new("ba{2,}c");
    assert_eq!(regex.unwrap().es_valida("bac").unwrap(), false);
}

#[test]
fn test24_llave_rango() {
    let regex = Regex::new("ba{5,8}c");
    assert_eq!(regex.unwrap().es_valida("baaaaaac").unwrap(), true);
}

#[test]
fn test25_llave_rango() {
    let regex = Regex::new("ba{5,8}c");
    assert_eq!(regex.unwrap().es_valida("baaaac").unwrap(), false);
}

#[test]
fn test26_llave_rango() {
    let regex = Regex::new("ba{5,8}c");
    assert_eq!(regex.unwrap().es_valida("baaaaaaaaac").unwrap(), false);
}

#[test]
fn test27_llave_maximo() {
    let regex = Regex::new("ba{,8}c");
    assert_eq!(regex.unwrap().es_valida("baaaaaac").unwrap(), true);
}

#[test]
fn test28_llave_maximo() {
    let regex = Regex::new("ba{,8}c");
    assert_eq!(
        regex.unwrap().es_valida("baaaaaaaaaaaaaaaac").unwrap(),
        false
    );
}

#[test]
fn test29_corchete_literal() {
    let regex = Regex::new("ho[lmn]a");
    assert_eq!(regex.unwrap().es_valida("hola").unwrap(), true);
}

#[test]
fn test30_corchete_literal() {
    let regex = Regex::new("ho[lmn]a");
    assert_eq!(regex.unwrap().es_valida("hoka").unwrap(), false);
}

#[test]
fn test31_corchete_rango() {
    let regex = Regex::new("ho[i-m]a");
    assert_eq!(regex.unwrap().es_valida("hola").unwrap(), true);
}

#[test]
fn test32_corchete_rango() {
    let regex = Regex::new("ho[i-m]a");
    assert_eq!(regex.unwrap().es_valida("hosa").unwrap(), false);
}

#[test]
fn test33_corchete_rango() {
    let regex = Regex::new("ho[a-dA-Cx-z]");
    assert_eq!(regex.unwrap().es_valida("hoAa").unwrap(), true);
}

#[test]
fn test34_corchete_rango() {
    let regex = Regex::new("ho[a-dA-Cx-z]");
    assert_eq!(regex.unwrap().es_valida("hoXa").unwrap(), false);
}

#[test]
fn test35_corchete_rango_negado() {
    let regex = Regex::new("ho[^a-dA-Cx-z]");
    assert_eq!(regex.unwrap().es_valida("hoXa").unwrap(), true);
}

#[test]
fn test36_corchete_rango_negado() {
    let regex = Regex::new("ho[^a-dA-Cx-z]");
    assert_eq!(regex.unwrap().es_valida("hoxa").unwrap(), false);
}

#[test]
fn test37_corchete_interrogacion() {
    let regex = Regex::new("ho[a-dA-Cx-z]?a");
    assert_eq!(regex.unwrap().es_valida("hoddda").unwrap(), false);
}

#[test]
fn test38_corchete_interrogacion() {
    let regex = Regex::new("ho[a-dA-Cx-z]?a");
    assert_eq!(regex.unwrap().es_valida("esa hoa").unwrap(), true);
}

#[test]
fn test39_corchete_interrogacion() {
    let regex = Regex::new("ho[d-g]?a");
    assert_eq!(regex.unwrap().es_valida("hoea").unwrap(), true);
}

#[test]
fn test40_corchete_mas() {
    let regex = Regex::new("ho[a-dA-Cx-z]+a");
    assert_eq!(regex.unwrap().es_valida("hoE").unwrap(), false);
}

#[test]
fn test41_corchete_mas() {
    let regex = Regex::new("ho[a-dA-Cx-z]+a");
    assert_eq!(regex.unwrap().es_valida("hoAAAAAa").unwrap(), true);
}

#[test]
fn test42_corchete_mas() {
    let regex = Regex::new("ho[a-dA-Cx-z]+a");
    assert_eq!(regex.unwrap().es_valida("hoxxxAAAAa").unwrap(), true);
}

#[test]
fn test43_corchete_llave() {
    let regex = Regex::new("ho[a-dA-Cx-z]{2,4}a");
    assert_eq!(regex.unwrap().es_valida("hoaE").unwrap(), false);
}

#[test]
fn test44_corchete_llave() {
    let regex = Regex::new("ho[a-dA-Cx-z]{2,4}a");
    assert_eq!(regex.unwrap().es_valida("hoxxaE").unwrap(), true);
}

#[test]
fn test45_corchete_llave() {
    let regex = Regex::new("ho[a-dA-Cx-z]{2,4}a");
    assert_eq!(regex.unwrap().es_valida("hoCCCCCa").unwrap(), false);
}

#[test]
fn test46_corchete_asterisco() {
    let regex = Regex::new("ho[a-dA-Cx-z]*a");
    assert_eq!(regex.unwrap().es_valida("hoa").unwrap(), true);
}

#[test]
fn test47_corchete_asterisco() {
    let regex = Regex::new("ho[a-dA-Cx-z]*a");
    assert_eq!(regex.unwrap().es_valida("hoAAAa").unwrap(), true);
}

#[test]
fn test48_corchete_asterisco_negado() {
    let regex = Regex::new("ho[^a-dA-Cx-z]*a");
    assert_eq!(regex.unwrap().es_valida("hoKa").unwrap(), true);
}

#[test]
fn test49_corchete_asterisco_negado() {
    let regex = Regex::new("ho[^a-dA-Cx-z]*a");
    assert_eq!(regex.unwrap().es_valida("hoa").unwrap(), true);
}

#[test]
fn test50_clase_alpha() {
    let regex = Regex::new("ho[[:alpha:]]a");
    assert_eq!(regex.unwrap().es_valida("hola").unwrap(), true);
}

#[test]
fn test51_clase_alpha_negada() {
    let regex = Regex::new("ho[^[:alpha:]]a");
    assert_eq!(regex.unwrap().es_valida("ho8a").unwrap(), true);
}

#[test]
fn test52_clase_alnum() {
    let regex = Regex::new("ho[[:alnum:]]a");
    assert_eq!(regex.unwrap().es_valida("hoKa").unwrap(), true);
}

#[test]
fn test53_clase_alnum() {
    let regex = Regex::new("ho[[:alnum:]]a");
    assert_eq!(regex.unwrap().es_valida("ho4a").unwrap(), true);
}

#[test]
fn test54_clase_alnum_negada() {
    let regex = Regex::new("ho[^[:alnum:]]a");
    assert_eq!(regex.unwrap().es_valida("ho&a").unwrap(), true);
}

#[test]
fn test55_clase_digit() {
    let regex = Regex::new("ho[[:digit:]]a");
    assert_eq!(regex.unwrap().es_valida("ho2a").unwrap(), true);
}

#[test]
fn test56_clase_digit_mas() {
    let regex = Regex::new("ho[[:digit:]]+");
    assert_eq!(regex.unwrap().es_valida("ho9999999").unwrap(), true);
}

#[test]
fn test57_clase_digit_negada() {
    let regex = Regex::new("ho[^[:digit:]]a");
    assert_eq!(regex.unwrap().es_valida("hoea").unwrap(), true);
}

#[test]
fn test58_clase_lower() {
    let regex = Regex::new("ho[[:lower:]]a");
    assert_eq!(regex.unwrap().es_valida("hoRa").unwrap(), false);
}

#[test]
fn test59_clase_lower() {
    let regex = Regex::new("ho[[:lower:]]a");
    assert_eq!(regex.unwrap().es_valida("hora").unwrap(), true);
}

#[test]
fn test60_clase_upper() {
    let regex = Regex::new("ho[[:upper:]]a");
    assert_eq!(regex.unwrap().es_valida("hoRa").unwrap(), true);
}

#[test]
fn test61_clase_upper() {
    let regex = Regex::new("ho[[:upper:]]a");
    assert_eq!(regex.unwrap().es_valida("hola").unwrap(), false);
}

#[test]
fn test62_clase_space() {
    let regex = Regex::new("ho[[:space:]]a");
    assert_eq!(regex.unwrap().es_valida("ho a").unwrap(), true);
}

#[test]
fn test63_clase_space() {
    let regex = Regex::new("ho[[:space:]]a");
    assert_eq!(regex.unwrap().es_valida("hola").unwrap(), false);
}

#[test]
fn test64_clase_punct() {
    let regex = Regex::new("ho[[:punct:]]a");
    assert_eq!(regex.unwrap().es_valida("ho;a").unwrap(), true);
}

#[test]
fn test65_clase_punct() {
    let regex = Regex::new("ho[[:punct:]]a");
    assert_eq!(regex.unwrap().es_valida("ho9a").unwrap(), false);
}

#[test]
fn test66_dolar() {
    let regex = Regex::new("hola$");
    assert_eq!(regex.unwrap().es_valida("hola").unwrap(), true);
}

#[test]
fn test67_dollar() {
    let regex = Regex::new("hola$");
    assert_eq!(regex.unwrap().es_valida("el dijo: hola").unwrap(), true);
}

#[test]
fn test68_dollar() {
    let regex = Regex::new("hola$");
    assert_eq!(regex.unwrap().es_valida("el dijo: hol").unwrap(), false);
}

#[test]
fn test69_dolar_caret() {
    let regex = Regex::new("^hola$");
    assert_eq!(regex.unwrap().es_valida("el dijo: hola").unwrap(), false);
}

#[test]
fn test70_dolar_caret() {
    let regex = Regex::new("^hola$");
    assert_eq!(regex.unwrap().es_valida("hola me dijo el").unwrap(), false);
}

#[test]
fn test71_dolar_caret() {
    let regex = Regex::new("^hola$");
    assert_eq!(regex.unwrap().es_valida("hola").unwrap(), true);
}

#[test]
fn test72_combinado() {
    let regex = Regex::new("ba{5,8}.c");
    assert_eq!(regex.unwrap().es_valida("baaaaaaafc").unwrap(), true);
}

#[test]
fn test73_combinado() {
    let regex = Regex::new("ho[k-o]a.p{2,4}");
    assert_eq!(regex.unwrap().es_valida("hola3ppp").unwrap(), true);
}

#[test]
fn test74_combinado() {
    let regex = Regex::new("^ho[[:punct:]]{2}a+");
    assert_eq!(regex.unwrap().es_valida("ho..aaaaaa").unwrap(), true);
}

#[test]
fn test75_combinado() {
    let regex = Regex::new("ho[[:punct:]]{2}a+");
    assert_eq!(regex.unwrap().es_valida("aaaaa ho..aaaaaa").unwrap(), true);
}

#[test]
fn test76_combinado() {
    let regex = Regex::new("[a-kA-G]ho[[:punct:]]*a\\.?");
    assert_eq!(regex.unwrap().es_valida("Dho;.a.").unwrap(), true);
}

#[test]
fn test77_combinado() {
    let regex = Regex::new("^hola [[:alpha:]]+");
    assert_eq!(regex.unwrap().es_valida("hola como estas").unwrap(), true);
}

#[test]
fn test78_combinado() {
    let regex = Regex::new("^hola [[:alpha:]]+");
    assert_eq!(
        regex
            .unwrap()
            .es_valida("el me dijo: hola como estas")
            .unwrap(),
        false
    );
}

#[test]
fn test79_combinado() {
    let regex = Regex::new("[[:upper:]]ascal[[:upper:]]ase");
    assert_eq!(regex.unwrap().es_valida("PascalCase").unwrap(), true);
}

#[test]
fn test80_combinado() {
    let regex = Regex::new("[[:upper:]]ascal[[:upper:]]ase");
    assert_eq!(regex.unwrap().es_valida("Pascalcase").unwrap(), false);
}

#[test]
fn test81_combinacion_general() {
    assert_eq!(
        Regex::es_valida_general("[abc]d[[:alpha:]]|k", "hola").unwrap(),
        false
    );
}

#[test]
fn test82_combinacion_general() {
    assert_eq!(
        Regex::es_valida_general("[abc]d[[:alpha:]]|k", "adAk").unwrap(),
        true
    );
}

#[test]
fn test83_funcion_or() {
    assert_eq!(Regex::es_valida_general("abc|de+f", "abc").unwrap(), true);
}

#[test]
fn test84_funcion_or() {
    assert_eq!(
        Regex::es_valida_general("abc|de+f", "deeeeeeeeeeeeeef").unwrap(),
        true
    );
}

#[test]
fn test85_funcion_or() {
    assert_eq!(
        Regex::es_valida_general("abc|de+f", "abcdeeeeeeeeeeeeeef").unwrap(),
        true
    );
}

#[test]
fn test86_funcion_or() {
    assert_eq!(
        Regex::es_valida_general("abc|de+f", "abdeeeeeeeeeeeeee").unwrap(),
        false
    );
}
#[test]
fn test87_rangos_seguidos() {
    assert_eq!(
        Regex::es_valida_general("abc{2,5}d abc{1,4}d", "en medio abcccd abcd fin").unwrap(),
        true
    );
}

#[test]
fn test88_rangos_seguidos() {
    assert_eq!(
        Regex::es_valida_general("abc{2,5}d abc{0,}d", "en medio abcccccd abd fin").unwrap(),
        true
    );
}

#[test]
fn test89_rangos_seguidos() {
    assert_eq!(
        Regex::es_valida_general("abc{2,5}d abc{0,}d", "en medio abcccd abcd fin").unwrap(),
        true
    );
}

#[test]
fn test90_punto_question() {
    assert_eq!(
        Regex::es_valida_general("ab.?d", "abhhd").unwrap(),
        false
    );
}

#[test]
fn test91_punto_question() {
    assert_eq!(
        Regex::es_valida_general("ab.?d", "hola abcd chau").unwrap(),
        true
    );
}
