//! The errors of the command-line program.
pub mod errores;
