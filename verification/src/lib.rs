//! A small grep: regular expressions with literals, `.`, bracket expressions and
//! POSIX classes, repetitions (`*`, `+`, `?`, `{n}`, `{n,m}`, `{n,}`, `{,m}`),
//! anchors (`^`, `$`) and alternatives (`|`), matched by a backtracking engine.
pub mod texto;
pub mod clase_char;
pub mod caracter;
pub mod repeticion;
pub mod paso_regex;
pub mod paso_evaluado;
pub mod errors;
pub mod lector;
pub mod analisis;
pub mod regex;
pub mod casa;
pub mod motor;
pub mod busqueda;
pub mod clase;
pub mod verficacion_inicial;
pub mod egrep;
