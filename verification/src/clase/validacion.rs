//! The outcome of matching a unit at a position.
use vstd::prelude::*;

verus! {

/// Whether a unit was found, and how far the position moves.
#[derive(Debug, PartialEq, Eq)]
pub enum ResultadoValidacion {
    Encontrado { avance: usize },
    NoEncontrado { avance: usize },
}

} // verus!
