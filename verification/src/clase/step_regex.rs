//! A step of an expression: a unit and its repetition.
use vstd::prelude::*;
use crate::clase::caracter::Caracter;
use crate::clase::repeticion::Repeticion;
use crate::paso_regex::PasoV;

verus! {

/// A step of the expression: the unit to match and how many times to match it.
#[derive(Debug)]
pub struct StepRegex {
    pub caracter_interno: Caracter,
    pub repeticiones: Repeticion,
}

impl View for StepRegex {
    type V = PasoV;

    open spec fn view(&self) -> PasoV {
        PasoV { caracter: self.caracter_interno@, repeticion: self.repeticiones@ }
    }
}

impl Clone for StepRegex {
    fn clone(&self) -> (r: Self)
        ensures
            r@ == self@,
    {
        StepRegex { caracter_interno: self.caracter_interno.clone(), repeticiones: self.repeticiones }
    }
}

/// The steps of a vector, each by what it stands for.
pub open spec fn vista_steps(v: Seq<StepRegex>) -> Seq<PasoV> {
    v.map_values(|p: StepRegex| p@)
}

} // verus!
