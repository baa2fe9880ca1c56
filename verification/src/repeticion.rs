//! How many times a step is to be matched.
use vstd::prelude::*;

verus! {

/// A repetition: exactly `n` times, any number of times (`*`), or a range whose
/// bounds may each be absent. `Exacta` and `Alguna` carry a flag for a negated
/// repetition; the expressions that this matcher builds never set it.
#[derive(Clone, Copy, Debug, PartialEq, Eq)]
pub enum Repeticion {
    Exacta(usize, bool),
    Alguna(bool),
    Rango { min: Option<usize>, max: Option<usize> },
}

} // verus!
