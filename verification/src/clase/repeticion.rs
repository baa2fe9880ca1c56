//! How many times a step is to be matched.
use vstd::prelude::*;

verus! {

/// A repetition: exactly `n` times, any number of times (`*`), or a range whose
/// bounds may each be absent. The flag of `Exacta` and `Alguna` marks a negated
/// bracket (`[^...]`): the step then succeeds where the bracket does not match.
#[derive(Clone, Copy, Debug, PartialEq, Eq)]
pub enum Repeticion {
    Exacta(usize, bool),
    Alguna(bool),
    Rango { min: Option<usize>, max: Option<usize> },
}

impl View for Repeticion {
    type V = crate::repeticion::Repeticion;

    open spec fn view(&self) -> crate::repeticion::Repeticion {
        match *self {
            Repeticion::Exacta(n, b) => crate::repeticion::Repeticion::Exacta(n, b),
            Repeticion::Alguna(b) => crate::repeticion::Repeticion::Alguna(b),
            Repeticion::Rango { min, max } => crate::repeticion::Repeticion::Rango { min, max },
        }
    }
}

} // verus!
