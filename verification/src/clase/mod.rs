//! The first version of the matcher: a bracket's negation `^` is carried by the
//! repetition of its step, `*` reads a bracket's worth of characters after it,
//! ranges do not backtrack, and the command line checks its arguments.
pub mod analisis;
pub mod busqueda;
pub mod evaluacion;
pub mod caracter;
pub mod clase_char;
pub mod errors;
pub mod funcion_or;
pub mod motor;
pub mod regex;
pub mod repeticion;
pub mod step_evaluado;
pub mod step_regex;
pub mod validacion;
pub mod verficacion_inicial;
