//! A step of an expression: a unit and its repetition.
use vstd::prelude::*;
use crate::caracter::{Caracter, CaracterV};
use crate::repeticion::Repeticion;

verus! {

/// A step of the expression: the unit to match and how many times to match it.
#[derive(Debug)]
pub struct PasoRegex {
    pub caracter_interno: Caracter,
    pub repeticiones: Repeticion,
}

/// What a step stands for.
pub struct PasoV {
    pub caracter: CaracterV,
    pub repeticion: Repeticion,
}

impl View for PasoRegex {
    type V = PasoV;

    open spec fn view(&self) -> PasoV {
        PasoV { caracter: self.caracter_interno@, repeticion: self.repeticiones }
    }
}

impl Clone for PasoRegex {
    fn clone(&self) -> (r: Self)
        ensures
            r@ == self@,
    {
        PasoRegex { caracter_interno: self.caracter_interno.clone(), repeticiones: self.repeticiones }
    }
}

/// The steps of a vector, each by what it stands for.
pub open spec fn vista_pasos(v: Seq<PasoRegex>) -> Seq<PasoV> {
    v.map_values(|p: PasoRegex| p@)
}

} // verus!
