//! Patterns whose steps each match one character once (literals, `.` and
//! classes), possibly closed by `$` or by one repeated unit (`*`, `?`, `+`): what
//! it means for a line to contain a match of one, how plain patterns, bracket
//! expressions and POSIX classes are read into such steps, and the states the
//! state-machine matcher of the `clase` module goes through on them.
use vstd::prelude::*;
use crate::analisis::{
    Analisis, analizar, analizar_expresion, aporta, fabricar_paso, pasos_iniciales, clase_nombrada, comodin_inicial, contenido_corchete, es_literal_simple, leer_corchete,
    paso_unitario, primer_barra,
};
use crate::caracter::{CaracterV, admite, pertenece};
use crate::clase_char::ClaseCharV;
use crate::motor::{Estado, coincide_en, estado_valido, retroceso, suma_tam};
use crate::paso_evaluado::EvaluadoV;
use crate::paso_regex::PasoV;
use crate::repeticion::Repeticion;

verus! {

/// A unit that matches exactly one character: a literal, `.` or a class.
pub open spec fn de_un_caracter(u: CaracterV) -> bool {
    !(u is Dolar)
}

/// Units that each match exactly one character.
pub open spec fn unidades_de_un_caracter(us: Seq<CaracterV>) -> bool {
    forall|t: int| 0 <= t < us.len() ==> de_un_caracter(#[trigger] us[t])
}

/// Whether the first `m` units accept the characters of the line from position
/// `j` on, one each.
pub open spec fn coincide_prefijo(us: Seq<CaracterV>, linea: Seq<char>, j: int, m: int) -> bool {
    &&& 0 <= j
    &&& j + m <= linea.len()
    &&& forall|t: int| 0 <= t < m ==> admite(#[trigger] us[t], linea[j + t])
}

/// Whether all the units accept the characters of the line from position `j` on.
pub open spec fn coincide_desde(us: Seq<CaracterV>, linea: Seq<char>, j: int) -> bool {
    coincide_prefijo(us, linea, j, us.len() as int)
}

/// What follows the units: nothing, `$`, or one more unit repeated by `*`, `?`
/// or `+`.
pub enum Remate {
    Nada,
    Dolar,
    Estrella(CaracterV),
    Opcional(CaracterV),
    Mas(CaracterV),
}

/// A repeated unit after the units matches one character at a time.
pub open spec fn remate_valido(remate: Remate) -> bool {
    match remate {
        Remate::Estrella(u) => de_un_caracter(u),
        Remate::Opcional(u) => de_un_caracter(u),
        Remate::Mas(u) => de_un_caracter(u),
        _ => true,
    }
}

/// Whether what follows the units holds at position `i` of the line: `$` at the
/// end of the line, `+` where its unit accepts the character; `*` and `?` always.
pub open spec fn remata(remate: Remate, linea: Seq<char>, i: int) -> bool {
    match remate {
        Remate::Dolar => i == linea.len(),
        Remate::Mas(u) => i < linea.len() && admite(u, linea[i]),
        _ => true,
    }
}

/// Whether the units match from position `j` on, followed by what follows them.
pub open spec fn encaja(us: Seq<CaracterV>, linea: Seq<char>, j: int, remate: Remate) -> bool {
    coincide_desde(us, linea, j) && remata(remate, linea, j + us.len())
}

/// Whether the units match from a position at `j` or before.
pub open spec fn encaja_hasta(us: Seq<CaracterV>, linea: Seq<char>, j: int, remate: Remate) -> bool {
    exists|x: int| 0 <= x <= j && encaja(us, linea, x, remate)
}

/// What the matcher finds for the units: a match at the start of the line when
/// there is no leading `.*` (`ancla`), a match anywhere otherwise.
pub open spec fn encuentra(us: Seq<CaracterV>, linea: Seq<char>, ancla: bool, remate: Remate) -> bool {
    if ancla {
        encaja(us, linea, 0, remate)
    } else {
        exists|j: int| encaja(us, linea, j, remate)
    }
}

/// The steps that match each unit once.
pub open spec fn pasos_de(us: Seq<CaracterV>) -> Seq<PasoV> {
    us.map_values(|u: CaracterV| paso_unitario(u))
}

/// The stacked steps of units matched one byte each.
pub open spec fn evaluados(us: Seq<CaracterV>) -> Seq<EvaluadoV> {
    us.map_values(|u: CaracterV| EvaluadoV { paso: paso_unitario(u), tam: 1, back: false })
}

/// The stacked matches of the leading `.*`, one byte each, each able to give it
/// back.
pub open spec fn comodines(n: nat) -> Seq<EvaluadoV> {
    Seq::new(n, |t: int| EvaluadoV { paso: comodin_inicial(), tam: 1, back: true })
}

/// The step that `$` stands for.
pub open spec fn paso_dolar() -> PasoV {
    paso_unitario(CaracterV::Dolar)
}

/// The steps that follow the units.
pub open spec fn cierre(remate: Remate) -> Seq<PasoV> {
    match remate {
        Remate::Nada => seq![],
        Remate::Dolar => seq![paso_dolar()],
        Remate::Estrella(u) => seq![PasoV { caracter: u, repeticion: Repeticion::Alguna(false) }],
        Remate::Opcional(u) => seq![
            PasoV { caracter: u, repeticion: Repeticion::Rango { min: Some(0), max: Some(1) } },
        ],
        Remate::Mas(u) => seq![
            PasoV { caracter: u, repeticion: Repeticion::Rango { min: Some(1), max: None } },
        ],
    }
}

/// What follows a plain pattern: `$` when `fin`, nothing otherwise.
pub open spec fn remate_de(fin: bool) -> Remate {
    if fin {
        Remate::Dolar
    } else {
        Remate::Nada
    }
}

/// The steps in front of the units: `.*` unless the expression starts with `^`.
pub open spec fn inicio(ancla: bool) -> Seq<PasoV> {
    if ancla {
        seq![]
    } else {
        seq![comodin_inicial()]
    }
}

/// The state of the search: the leading `.*` holds the first `j` characters of
/// the line, and the first `m` units are matched after them.
pub open spec fn estado_busqueda(us: Seq<CaracterV>, remate: Remate, j: nat, m: nat) -> Estado {
    Estado {
        cola: pasos_de(us).skip(m as int) + cierre(remate),
        pila: comodines(j) + evaluados(us.take(m as int)),
        indice: (j + m) as int,
    }
}

/// A character of a plain pattern: one that stands for itself, or `.`.
pub open spec fn es_simple(c: char) -> bool {
    es_literal_simple(c) || c == '.'
}

/// A pattern made of plain characters only.
pub open spec fn patron_simple(p: Seq<char>) -> bool {
    forall|t: int| 0 <= t < p.len() ==> es_simple(#[trigger] p[t])
}

/// The unit that a plain character stands for.
pub open spec fn unidad(c: char) -> CaracterV {
    if c == '.' {
        CaracterV::Comodin
    } else {
        CaracterV::Literal(c)
    }
}

/// The units of a plain pattern.
pub open spec fn unidades(p: Seq<char>) -> Seq<CaracterV> {
    p.map_values(|c: char| unidad(c))
}

/// The characters that end an expression: `$` when `fin`.
pub open spec fn dolar_final(fin: bool) -> Seq<char> {
    if fin {
        seq!['$']
    } else {
        seq![]
    }
}

/// A plain pattern, after `^` when `ancla`, followed by `$` when `fin`.
pub open spec fn expresion_simple(p: Seq<char>, ancla: bool, fin: bool) -> Seq<char> {
    (if ancla {
        seq!['^']
    } else {
        seq![]
    }) + p + dolar_final(fin)
}

/// A character that neither brackets, braces nor alternatives use.
pub open spec fn neutro(c: char) -> bool {
    c != '{' && c != '}' && c != '[' && c != ']' && c != '|'
}

/// An expression whose characters are all neutral.
pub open spec fn sin_delimitadores(e: Seq<char>) -> bool {
    forall|t: int| 0 <= t < e.len() ==> neutro(#[trigger] e[t])
}

/// A plain pattern with its anchors uses no delimiters.
pub proof fn lema_expresion_simple_neutra(p: Seq<char>, ancla: bool, fin: bool)
    requires
        patron_simple(p),
    ensures
        sin_delimitadores(expresion_simple(p, ancla, fin)),
        sin_barra(expresion_simple(p, ancla, fin)),
{
    let e = expresion_simple(p, ancla, fin);
    let a: Seq<char> = if ancla {
        seq!['^']
    } else {
        seq![]
    };
    assert forall|t: int| 0 <= t < e.len() implies neutro(#[trigger] e[t]) by {
        if t < a.len() {
            assert(e[t] == '^');
        } else if t < a.len() + p.len() {
            assert(e[t] == p[t - a.len()]);
            assert(es_simple(p[t - a.len()]));
        } else {
            assert(e[t] == '$');
        }
    }
    assert forall|t: int| 0 <= t < e.len() implies #[trigger] e[t] != '|' by {
        assert(neutro(e[t]));
    }
}

/// The units of a plain pattern each match one character.
pub proof fn lema_unidades_simples(p: Seq<char>)
    ensures
        unidades_de_un_caracter(unidades(p)),
        unidades(p).len() == p.len(),
{
    assert forall|t: int| 0 <= t < unidades(p).len() implies de_un_caracter(#[trigger] unidades(p)[t]) by {
        assert(unidades(p)[t] == unidad(p[t]));
    }
}

/// An expression without `|`.
pub open spec fn sin_barra(e: Seq<char>) -> bool {
    forall|t: int| 0 <= t < e.len() ==> #[trigger] e[t] != '|'
}

/// With no `|` the whole expression is one alternative.
pub proof fn lema_primer_barra_sin_barra(e: Seq<char>)
    requires
        sin_barra(e),
    ensures
        primer_barra(e) == e.len(),
    decreases e.len(),
{
    if e.len() > 0 {
        let r = e.drop_first();
        assert(e[0] != '|');
        assert forall|t: int| 0 <= t < r.len() implies #[trigger] r[t] != '|' by {
            assert(r[t] == e[t + 1]);
        }
        lema_primer_barra_sin_barra(r);
    }
}

/// A character that a bracket's list keeps as it is.
pub open spec fn de_lista(c: char) -> bool {
    neutro(c) && c != '^' && c != ':'
}

/// A bracket's list whose characters are all kept as they are.
pub open spec fn lista_simple(l: Seq<char>) -> bool {
    forall|t: int| 0 <= t < l.len() ==> de_lista(#[trigger] l[t])
}

/// A bracket expression: `[`, then `^` when negated, the list, and `]`.
pub open spec fn expresion_corchete(l: Seq<char>, negado: bool) -> Seq<char> {
    seq!['['] + (if negado {
        seq!['^']
    } else {
        seq![]
    }) + l + seq![']']
}

/// Whether the line holds a character of the set that the list stands for (one
/// outside it, when negated).
pub open spec fn hay_en_corchete(l: Seq<char>, negado: bool, linea: Seq<char>) -> bool {
    exists|j: int| 0 <= j < linea.len() && contenido_corchete(l).contains(#[trigger] linea[j]) != negado
}

/// Reading a bracket's list keeps the characters that it keeps as they are.
pub proof fn lema_leer_lista(
    l: Seq<char>,
    r: Seq<char>,
    cantidad: nat,
    hay_clase: bool,
    negado: bool,
    aux: Seq<char>,
)
    requires
        forall|t: int| 0 <= t < l.len() ==> de_lista(#[trigger] l[t]),
    ensures
        leer_corchete(l + r, cantidad, hay_clase, negado, aux) == leer_corchete(
            r,
            cantidad,
            hay_clase,
            negado,
            aux + l,
        ),
    decreases l.len(),
{
    if l.len() == 0 {
        assert(l + r =~= r);
        assert(aux + l =~= aux);
    } else {
        let d = l.drop_first();
        assert(de_lista(l[0]));
        assert((l + r)[0] == l[0]);
        assert((l + r).drop_first() =~= d + r);
        assert forall|t: int| 0 <= t < d.len() implies de_lista(#[trigger] d[t]) by {
            assert(d[t] == l[t + 1]);
        }
        lema_leer_lista(d, r, cantidad, hay_clase, negado, aux.push(l[0]));
        assert(aux.push(l[0]) + d =~= aux + l);
    }
}

/// A bracket `[l]` (or `[^l]`) whose list holds no class reads into one step that
/// matches, once, a character of the set the list spells (one outside it, when
/// negated). Every character of the list other than `-` is in the set; every `-`
/// with a character on each side puts in every character from its left
/// neighbour to its right one, wherever it stands in the list (`[a-zA-Z]` holds
/// every ASCII letter); and nothing else is in the set.
pub proof fn ley_corchete_lista(l: Seq<char>, negado: bool)
    requires
        lista_simple(l),
    ensures
        analizar_expresion(expresion_corchete(l, negado)) == (Analisis::Listo {
            pasos: seq![
                comodin_inicial(),
                PasoV {
                    caracter: CaracterV::Serie(ClaseCharV::Simple(contenido_corchete(l), negado)),
                    repeticion: Repeticion::Exacta(1, false),
                },
            ],
            resto: seq![],
        }),
        forall|i: int, c: char|
            #![trigger l[i], contenido_corchete(l).contains(c)]
            1 <= i < l.len() - 1 && l[i] == '-' && l[i - 1] <= c && c <= l[i + 1] ==> contenido_corchete(
                l,
            ).contains(c),
        forall|i: int| 0 <= i < l.len() && l[i] != '-' ==> contenido_corchete(l).contains(#[trigger] l[i]),
        forall|c: char|
            #[trigger] contenido_corchete(l).contains(c) ==> exists|i: int|
                0 <= i < l.len() && ((l[i] != '-' && #[trigger] l[i] == c) || (l[i] == '-' && 1 <= i < l.len() - 1
                    && l[i - 1] <= c && c <= l[i + 1])),
{
    let e = expresion_corchete(l, negado);
    let tras_abrir = (if negado { seq!['^'] } else { seq![] }) + l + seq![']'];
    assert(e =~= seq!['['] + tras_abrir);
    assert(e[0] == '[');
    assert(pasos_iniciales(e) == seq![comodin_inicial()]);
    assert(e.drop_first() =~= tras_abrir);
    lema_leer_lista(l, seq![']'], 1, false, negado, seq![]);
    assert(seq![] + l =~= l);
    if negado {
        assert(tras_abrir[0] == '^');
        assert(tras_abrir.drop_first() =~= l + seq![']']);
    } else {
        assert(tras_abrir =~= l + seq![']']);
    }
    let cierre_l = seq![']'];
    assert(cierre_l[0] == ']');
    assert(cierre_l.drop_first() =~= Seq::<char>::empty());
    let paso = PasoV {
        caracter: CaracterV::Serie(ClaseCharV::Simple(contenido_corchete(l), negado)),
        repeticion: Repeticion::Exacta(1, false),
    };
    assert(fabricar_paso('[', seq![comodin_inicial()], tras_abrir) == (Analisis::Listo {
        pasos: seq![comodin_inicial()].push(paso),
        resto: Seq::<char>::empty(),
    }));
    assert(seq![comodin_inicial()].push(paso) =~= seq![comodin_inicial(), paso]);
    assert(analizar(seq![comodin_inicial(), paso], Seq::<char>::empty()) == (Analisis::Listo {
        pasos: seq![comodin_inicial(), paso],
        resto: Seq::<char>::empty(),
    }));
    assert forall|i: int, c: char|
        #![trigger l[i], contenido_corchete(l).contains(c)]
        1 <= i < l.len() - 1 && l[i] == '-' && l[i - 1] <= c && c <= l[i + 1] implies contenido_corchete(
            l,
        ).contains(c) by {
        assert(aporta(l, i, c));
    }
    assert forall|i: int| 0 <= i < l.len() && l[i] != '-' implies contenido_corchete(l).contains(
        #[trigger] l[i],
    ) by {
        assert(aporta(l, i, l[i]));
    }
    assert forall|c: char| #[trigger] contenido_corchete(l).contains(c) implies exists|i: int|
        0 <= i < l.len() && ((l[i] != '-' && #[trigger] l[i] == c) || (l[i] == '-' && 1 <= i < l.len() - 1
            && l[i - 1] <= c && c <= l[i + 1])) by {
        let i = choose|i: int| 0 <= i < l.len() && #[trigger] aporta(l, i, c);
        assert(l[i] == l[i]);
    }
}

/// Two expressions without `|` make one without `|`.
pub proof fn lema_sin_barra_concat(a: Seq<char>, b: Seq<char>)
    requires
        sin_barra(a),
        sin_barra(b),
    ensures
        sin_barra(a + b),
{
    assert forall|t: int| 0 <= t < (a + b).len() implies #[trigger] (a + b)[t] != '|' by {
        if t < a.len() {
            assert((a + b)[t] == a[t]);
        } else {
            assert((a + b)[t] == b[t - a.len()]);
        }
    }
}

/// A POSIX class expression: `[`, then `^` when negated, `[:`, the class's name,
/// and `:]]`.
pub open spec fn expresion_clase(nombre: Seq<char>, negado: bool) -> Seq<char> {
    seq!['['] + (if negado {
        seq!['^']
    } else {
        seq![]
    }) + seq!['[', ':'] + nombre + seq![':', ']', ']']
}

/// Whether the line holds a character that belongs to the class.
pub open spec fn hay_en_clase(clase: ClaseCharV, linea: Seq<char>) -> bool {
    exists|j: int| 0 <= j < linea.len() && pertenece(clase, #[trigger] linea[j])
}

/// The names of the POSIX classes are made of lowercase letters.
pub proof fn lema_nombre_de_lista(nombre: Seq<char>, negado: bool)
    requires
        clase_nombrada(nombre, negado) is Some,
    ensures
        forall|t: int| 0 <= t < nombre.len() ==> de_lista(#[trigger] nombre[t]),
        sin_barra(nombre),
{
    assert(nombre.len() == 5);
    assert forall|t: int| 0 <= t < nombre.len() implies 'a' <= #[trigger] nombre[t] <= 'z' by {
        assert(0 <= t < 5);
        if nombre == seq!['a', 'l', 'p', 'h', 'a'] {
        } else if nombre == seq!['a', 'l', 'n', 'u', 'm'] {
        } else if nombre == seq!['d', 'i', 'g', 'i', 't'] {
        } else if nombre == seq!['l', 'o', 'w', 'e', 'r'] {
        } else if nombre == seq!['u', 'p', 'p', 'e', 'r'] {
        } else if nombre == seq!['s', 'p', 'a', 'c', 'e'] {
        } else {
            assert(nombre == seq!['p', 'u', 'n', 'c', 't']);
        }
    }
    assert forall|t: int| 0 <= t < nombre.len() implies de_lista(#[trigger] nombre[t]) by {
        assert('a' <= nombre[t] <= 'z');
    }
    assert forall|t: int| 0 <= t < nombre.len() implies #[trigger] nombre[t] != '|' by {
        assert('a' <= nombre[t] <= 'z');
    }
}

/// A bracket expression uses no `|`.
pub proof fn lema_corchete_sin_barra(l: Seq<char>, negado: bool)
    requires
        lista_simple(l),
    ensures
        sin_barra(expresion_corchete(l, negado)),
{
    let e = expresion_corchete(l, negado);
    let k: int = if negado {
        2
    } else {
        1
    };
    assert forall|t: int| 0 <= t < e.len() implies #[trigger] e[t] != '|' by {
        if k <= t < k + l.len() {
            assert(e[t] == l[t - k]);
            assert(de_lista(l[t - k]));
        }
    }
}

/// Where the units are one class, they fit somewhere exactly when a character of
/// the line belongs to it.
pub proof fn lema_encuentra_clase(clase: ClaseCharV, linea: Seq<char>)
    ensures
        encuentra(seq![CaracterV::Serie(clase)], linea, false, Remate::Nada) == (exists|j: int|
            0 <= j < linea.len() && pertenece(clase, #[trigger] linea[j])),
{
    let us = seq![CaracterV::Serie(clase)];
    if encuentra(us, linea, false, Remate::Nada) {
        let j = choose|j: int| encaja(us, linea, j, Remate::Nada);
        assert(admite(us[0], linea[j + 0]));
    }
    if exists|j: int| 0 <= j < linea.len() && pertenece(clase, #[trigger] linea[j]) {
        let j = choose|j: int| 0 <= j < linea.len() && pertenece(clase, #[trigger] linea[j]);
        assert forall|t: int| 0 <= t < 1 implies admite(#[trigger] us[t], linea[j + t]) by {
            assert(t == 0);
        }
        assert(encaja(us, linea, j, Remate::Nada));
    }
}

/// On an ASCII line a unit of one character matches one byte where it accepts the
/// character, and nothing elsewhere (also at the end of the line).
pub proof fn lema_coincide_unidad(u: CaracterV, linea: Seq<char>, i: int)
    requires
        de_un_caracter(u),
        vstd::utf8::is_ascii_chars(linea),
        0 <= i <= linea.len(),
    ensures
        coincide_en(u, linea, i) == (if i < linea.len() && admite(u, linea[i]) {
            1nat
        } else {
            0nat
        }),
{
    let texto = linea.subrange(i, linea.len() as int);
    if i < linea.len() {
        assert(texto[0] == linea[i]);
        assert('\0' <= linea[i] <= '\u{7f}');
    }
}

/// The search stack: `j` matches of the leading `.*` and then the first `m` units,
/// each one byte.
pub proof fn lema_pila_busqueda(us: Seq<CaracterV>, j: nat, m: nat)
    requires
        m <= us.len(),
    ensures
        (comodines(j) + evaluados(us.take(m as int))).len() == j + m,
        forall|t: int|
            0 <= t < j + m ==> (#[trigger] (comodines(j) + evaluados(us.take(m as int)))[t]).tam == 1,
{
    let pila = comodines(j) + evaluados(us.take(m as int));
    assert forall|t: int| 0 <= t < j + m implies (#[trigger] pila[t]).tam == 1 by {
        if t < j {
            assert(pila[t] == comodines(j)[t]);
        } else {
            assert(pila[t] == evaluados(us.take(m as int))[t - j]);
        }
    }
}

/// A stack of one-byte steps holds as many bytes as steps.
pub proof fn lema_suma_tam_unos(pila: Seq<EvaluadoV>)
    requires
        forall|t: int| 0 <= t < pila.len() ==> (#[trigger] pila[t]).tam == 1,
    ensures
        suma_tam(pila) == pila.len(),
    decreases pila.len(),
{
    if pila.len() > 0 {
        let resto = pila.drop_last();
        assert forall|t: int| 0 <= t < resto.len() implies (#[trigger] resto[t]).tam == 1 by {
            assert(resto[t] == pila[t]);
        }
        lema_suma_tam_unos(resto);
        assert(pila[pila.len() - 1].tam == 1);
    }
}

/// The search state keeps the stacked steps within the position.
pub proof fn lema_estado_busqueda_valido(us: Seq<CaracterV>, remate: Remate, j: nat, m: nat)
    requires
        m <= us.len(),
    ensures
        estado_valido(estado_busqueda(us, remate, j, m)),
{
    lema_pila_busqueda(us, j, m);
    lema_suma_tam_unos(comodines(j) + evaluados(us.take(m as int)));
}

/// Backtracking from the search state puts the matched units back in the queue
/// and takes one character from the leading `.*`; with none left to take, the
/// match fails.
pub proof fn lema_retroceso_busqueda(us: Seq<CaracterV>, remate: Remate, j: nat, m: nat, acumulado: nat)
    requires
        m <= us.len(),
    ensures
        retroceso(
            comodines(j) + evaluados(us.take(m as int)),
            pasos_de(us).skip(m as int) + cierre(remate),
            acumulado,
        ) == (if j > 0 {
            Some((acumulado + m + 1, comodines((j - 1) as nat), pasos_de(us) + cierre(remate)))
        } else {
            None
        }),
    decreases m,
{
    let pila = comodines(j) + evaluados(us.take(m as int));
    if m > 0 {
        let e = pila.last();
        assert(e == evaluados(us.take(m as int))[m - 1]);
        assert(pila.drop_last() =~= comodines(j) + evaluados(us.take(m - 1)));
        assert(seq![e.paso] + (pasos_de(us).skip(m as int) + cierre(remate)) =~= pasos_de(us).skip(
            m - 1,
        ) + cierre(remate));
        lema_retroceso_busqueda(us, remate, j, (m - 1) as nat, acumulado + 1);
    } else {
        assert(pila =~= comodines(j));
        assert(pasos_de(us).skip(0) =~= pasos_de(us));
        if j > 0 {
            assert(pila.last() == comodines(j)[j - 1]);
            assert(pila.drop_last() =~= comodines((j - 1) as nat));
        }
    }
}

/// Where the units do not fit at `j`, the search goes on from `j - 1`, or finds
/// nothing at 0.
pub proof fn lema_encaja_hasta_paso(us: Seq<CaracterV>, linea: Seq<char>, j: nat, remate: Remate)
    requires
        !encaja(us, linea, j as int, remate),
    ensures
        j > 0 ==> encaja_hasta(us, linea, j as int, remate) == encaja_hasta(us, linea, j - 1, remate),
        j == 0 ==> !encaja_hasta(us, linea, 0, remate),
{
    if encaja_hasta(us, linea, j as int, remate) {
        let x = choose|x: int| 0 <= x <= j && encaja(us, linea, x, remate);
        assert(x != j);
    }
}

/// The units fit somewhere exactly when they fit at a position of the line.
pub proof fn lema_encaja_en_linea(us: Seq<CaracterV>, linea: Seq<char>, remate: Remate)
    ensures
        encaja_hasta(us, linea, linea.len() as int, remate) == (exists|j: int| encaja(us, linea, j, remate)),
{
    if exists|j: int| encaja(us, linea, j, remate) {
        let x = choose|j: int| encaja(us, linea, j, remate);
        assert(0 <= x <= linea.len() && encaja(us, linea, x, remate));
    }
}

/// What a plain character followed by `*`, `?` or `+` stands for after the units.
pub open spec fn remate_repetido(c: char, rep: char) -> Remate {
    if rep == '*' {
        Remate::Estrella(unidad(c))
    } else if rep == '?' {
        Remate::Opcional(unidad(c))
    } else {
        Remate::Mas(unidad(c))
    }
}

} // verus!
