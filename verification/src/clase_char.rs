//! Character classes that a bracket expression can stand for.
use vstd::prelude::*;

verus! {

/// A class of characters: alphanumeric, alphabetic, digit, lower case, upper
/// case, white space or punctuation, or a set of single characters. The flag of
/// each class says whether it is negated (`[^...]`).
#[derive(Debug)]
pub enum ClaseChar {
    Alnum(bool),
    Alpha(bool),
    Digit(bool),
    Lower(bool),
    Upper(bool),
    Space(bool),
    Punct(bool),
    Simple(Vec<char>, bool),
}

/// What a `ClaseChar` stands for: the set of a `Simple` class is a set.
pub enum ClaseCharV {
    Alnum(bool),
    Alpha(bool),
    Digit(bool),
    Lower(bool),
    Upper(bool),
    Space(bool),
    Punct(bool),
    Simple(Set<char>, bool),
}

impl View for ClaseChar {
    type V = ClaseCharV;

    open spec fn view(&self) -> ClaseCharV {
        match self {
            ClaseChar::Alnum(n) => ClaseCharV::Alnum(*n),
            ClaseChar::Alpha(n) => ClaseCharV::Alpha(*n),
            ClaseChar::Digit(n) => ClaseCharV::Digit(*n),
            ClaseChar::Lower(n) => ClaseCharV::Lower(*n),
            ClaseChar::Upper(n) => ClaseCharV::Upper(*n),
            ClaseChar::Space(n) => ClaseCharV::Space(*n),
            ClaseChar::Punct(n) => ClaseCharV::Punct(*n),
            ClaseChar::Simple(v, n) => ClaseCharV::Simple(v@.to_set(), *n),
        }
    }
}

impl Clone for ClaseChar {
    fn clone(&self) -> (r: Self)
        ensures
            r@ == self@,
    {
        match self {
            ClaseChar::Alnum(n) => ClaseChar::Alnum(*n),
            ClaseChar::Alpha(n) => ClaseChar::Alpha(*n),
            ClaseChar::Digit(n) => ClaseChar::Digit(*n),
            ClaseChar::Lower(n) => ClaseChar::Lower(*n),
            ClaseChar::Upper(n) => ClaseChar::Upper(*n),
            ClaseChar::Space(n) => ClaseChar::Space(*n),
            ClaseChar::Punct(n) => ClaseChar::Punct(*n),
            ClaseChar::Simple(v, n) => {
                let w = v.clone();
                assert(w@ =~= v@);
                ClaseChar::Simple(w, *n)
            },
        }
    }
}

} // verus!
