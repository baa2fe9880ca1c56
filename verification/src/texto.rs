//! Character classification and small text utilities shared by both matchers.
use vstd::prelude::*;

verus! {

broadcast use vstd::string::group_string_axioms;

/// ASCII letter: `'A'..='Z'` or `'a'..='z'`.
pub open spec fn es_ascii_alfabetico(c: char) -> bool {
    ('A' <= c && c <= 'Z') || ('a' <= c && c <= 'z')
}

/// ASCII decimal digit: `'0'..='9'`.
pub open spec fn es_ascii_digito(c: char) -> bool {
    '0' <= c && c <= '9'
}

/// ASCII punctuation: `!"#$%&'()*+,-./`, `:;<=>?@`, `` [\]^_` `` and `{|}~`.
pub open spec fn es_ascii_puntuacion(c: char) -> bool {
    ||| ('!' <= c && c <= '/')
    ||| (':' <= c && c <= '@')
    ||| ('[' <= c && c <= '`')
    ||| ('{' <= c && c <= '~')
}

/// The ASCII punctuation characters, as `char::is_ascii_punctuation` documents
/// them: the 32 printable ASCII characters that are neither letters, digits nor
/// the space.
pub open spec fn puntuacion_ascii() -> Set<char> {
    set![
        '!', '"', '#', '$', '%', '&', '\'', '(', ')', '*', '+', ',', '-', '.', '/', ':', ';', '<',
        '=', '>', '?', '@', '[', '\\', ']', '^', '_', '`', '{', '|', '}', '~',
    ]
}

/// The punctuation test accepts exactly the 32 ASCII punctuation characters, `_`
/// and `` ` `` among them, and nothing else.
pub proof fn ley_puntuacion(c: char)
    ensures
        es_ascii_puntuacion(c) <==> puntuacion_ascii().contains(c),
{
}

/// The digit test accepts exactly the ten ASCII digits.
pub proof fn ley_digitos(c: char)
    ensures
        es_ascii_digito(c) <==> set!['0', '1', '2', '3', '4', '5', '6', '7', '8', '9'].contains(c),
{
}

/// Number of bytes that the UTF-8 encoding of `c` takes.
pub open spec fn longitud_utf8(c: char) -> nat {
    if (c as u32) < 0x80 {
        1
    } else if (c as u32) < 0x800 {
        2
    } else if (c as u32) < 0x10000 {
        3
    } else {
        4
    }
}

/// Numeric value of an ASCII decimal digit.
pub open spec fn valor_digito(c: char) -> nat {
    ((c as u32) - ('0' as u32)) as nat
}

pub fn ascii_alfabetico(c: char) -> (r: bool)
    ensures
        r == es_ascii_alfabetico(c),
{
    ('A' <= c && c <= 'Z') || ('a' <= c && c <= 'z')
}

pub fn ascii_digito(c: char) -> (r: bool)
    ensures
        r == es_ascii_digito(c),
{
    '0' <= c && c <= '9'
}

pub fn ascii_puntuacion(c: char) -> (r: bool)
    ensures
        r == es_ascii_puntuacion(c),
{
    ('!' <= c && c <= '/') || (':' <= c && c <= '@') || ('[' <= c && c <= '`') || ('{' <= c
        && c <= '~')
}

pub fn largo_utf8(c: char) -> (r: usize)
    ensures
        r == longitud_utf8(c),
        1 <= r <= 4,
{
    let x: u32 = c as u32;
    if x < 0x80 {
        1
    } else if x < 0x800 {
        2
    } else if x < 0x10000 {
        3
    } else {
        4
    }
}

/// The value of a decimal digit, as `c.to_string().parse::<usize>()` gives it.
pub fn digito(c: char) -> (r: Option<usize>)
    ensures
        r == (if es_ascii_digito(c) {
            Some(valor_digito(c) as usize)
        } else {
            None::<usize>
        }),
{
    if '0' <= c && c <= '9' {
        let x: u32 = (c as u32) - ('0' as u32);
        Some(x as usize)
    } else {
        None
    }
}

/// Whether `char::is_alphanumeric` holds of a character (Unicode tables).
pub uninterp spec fn es_alfanumerico(c: char) -> bool;

/// Whether `char::is_lowercase` holds of a character (Unicode tables).
pub uninterp spec fn es_minuscula(c: char) -> bool;

/// Whether `char::is_uppercase` holds of a character (Unicode tables).
pub uninterp spec fn es_mayuscula(c: char) -> bool;

/// Whether `char::is_whitespace` holds of a character (Unicode tables).
pub uninterp spec fn es_espacio(c: char) -> bool;

/// Whether a character is ASCII (below 0x80).
pub open spec fn es_ascii(c: char) -> bool {
    (c as u32) < 0x80
}

/// Alphanumeric (`char::is_alphanumeric`): on ASCII characters `0-9`, `A-Z`,
/// `a-z`; elsewhere what the Unicode tables say.
pub open spec fn alfanumerico(c: char) -> bool {
    if es_ascii(c) {
        es_ascii_alfabetico(c) || es_ascii_digito(c)
    } else {
        es_alfanumerico(c)
    }
}

/// Lower case (`char::is_lowercase`): on ASCII characters `a-z`; elsewhere what
/// the Unicode tables say.
pub open spec fn minuscula(c: char) -> bool {
    if es_ascii(c) {
        'a' <= c && c <= 'z'
    } else {
        es_minuscula(c)
    }
}

/// Upper case (`char::is_uppercase`): on ASCII characters `A-Z`; elsewhere what
/// the Unicode tables say.
pub open spec fn mayuscula(c: char) -> bool {
    if es_ascii(c) {
        'A' <= c && c <= 'Z'
    } else {
        es_mayuscula(c)
    }
}

/// White space (`char::is_whitespace`): on ASCII characters U+0009 to U+000D and
/// space; elsewhere what the Unicode tables say.
pub open spec fn espacio(c: char) -> bool {
    if es_ascii(c) {
        ('\u{9}' <= c && c <= '\u{d}') || c == ' '
    } else {
        es_espacio(c)
    }
}

/// `char::is_alphanumeric` answers from the Unicode tables of std (alphabetic or
/// numeric); its result depends on the character alone, and is named
/// `es_alfanumerico`. On ASCII characters it holds exactly of `0-9`, `A-Z`, `a-z`.
pub assume_specification[ char::is_alphanumeric ](c: char) -> (r: bool)
    ensures
        r == es_alfanumerico(c),
        es_ascii(c) ==> r == (es_ascii_alfabetico(c) || es_ascii_digito(c)),
;

/// `char::is_lowercase` answers from the Unicode `Lowercase` property; its result
/// depends on the character alone, and is named `es_minuscula`. On ASCII
/// characters it holds exactly of `a-z`.
pub assume_specification[ char::is_lowercase ](c: char) -> (r: bool)
    ensures
        r == es_minuscula(c),
        es_ascii(c) ==> r == ('a' <= c && c <= 'z'),
;

/// `char::is_uppercase` answers from the Unicode `Uppercase` property; its result
/// depends on the character alone, and is named `es_mayuscula`. On ASCII
/// characters it holds exactly of `A-Z`.
pub assume_specification[ char::is_uppercase ](c: char) -> (r: bool)
    ensures
        r == es_mayuscula(c),
        es_ascii(c) ==> r == ('A' <= c && c <= 'Z'),
;

/// `char::is_whitespace` answers from the Unicode `White_Space` property; its
/// result depends on the character alone, and is named `es_espacio`. On ASCII
/// characters it holds exactly of tab, line feed, vertical tab, form feed,
/// carriage return (U+0009 to U+000D) and space.
pub assume_specification[ char::is_whitespace ](c: char) -> (r: bool)
    ensures
        r == es_espacio(c),
        es_ascii(c) ==> r == (('\u{9}' <= c && c <= '\u{d}') || c == ' '),
;

/// The first character of a text, if it has one.
pub fn primer_caracter(s: &str) -> (r: Option<char>)
    ensures
        r == (if s@.len() > 0 {
            Some(s@[0])
        } else {
            None::<char>
        }),
{
    let mut it = s.chars();
    it.next()
}

/// The characters of a text, in order.
pub fn a_vector(s: &str) -> (v: Vec<char>)
    ensures
        v@ == s@,
{
    let mut v: Vec<char> = Vec::new();
    for c in iter: s.chars()
        invariant
            v@ == iter.seq().take(iter.index() as int),
            iter.seq() == s@,
    {
        v.push(c);
    }
    v
}

/// Whether a vector of characters spells out exactly the characters of `palabra`.
pub fn misma_palabra(v: &Vec<char>, palabra: &Vec<char>) -> (r: bool)
    ensures
        r == (v@ == palabra@),
{
    if v.len() != palabra.len() {
        return false;
    }
    let n = v.len();
    for i in 0..n
        invariant
            n == v.len(),
            n == palabra.len(),
            forall|j: int| 0 <= j < i ==> v@[j] == palabra@[j],
    {
        if v[i] != palabra[i] {
            return false;
        }
    }
    assert(v@ =~= palabra@);
    true
}

/// Whether `c` occurs in `v`.
pub fn contiene(v: &Vec<char>, c: char) -> (r: bool)
    ensures
        r == v@.contains(c),
{
    let n = v.len();
    for i in 0..n
        invariant
            n == v.len(),
            forall|j: int| 0 <= j < i ==> v@[j] != c,
    {
        if v[i] == c {
            return true;
        }
    }
    false
}

/// `char::from_u32`: the character whose scalar value is `x`, when `x` is one.
pub open spec fn es_escalar(x: u32) -> bool {
    x <= 0x10FFFF && !(0xD800 <= x && x <= 0xDFFF)
}

/// Every character is a Unicode scalar value.
pub proof fn lema_caracter_escalar(c: char)
    ensures
        es_escalar(c as u32),
        (c as u32) as int == c as int,
        (c as int) <= 0x10FFFF,
{
}

/// `char::from_u32` gives the character with scalar value `x` when `x` is a
/// Unicode scalar value (at most 0x10FFFF and outside the surrogates), and `None`
/// otherwise.
pub assume_specification[ core::char::from_u32 ](x: u32) -> (r: Option<char>)
    ensures
        es_escalar(x) ==> r == Some(x as char),
        !es_escalar(x) ==> r is None,
;

} // verus!
