//! Character classes that a bracket expression can stand for.
use vstd::prelude::*;
use crate::clase_char::ClaseCharV;

verus! {

/// A class of characters: alphanumeric, alphabetic, digit, lower case, upper
/// case, white space or punctuation, or a set of single characters.
#[derive(Debug)]
pub enum ClaseChar {
    Alnum,
    Alpha,
    Digit,
    Lower,
    Upper,
    Space,
    Punct,
    Simple(Vec<char>),
}

impl View for ClaseChar {
    type V = ClaseCharV;

    /// A class stands for the same set as the class of the other matcher that is
    /// not negated.
    open spec fn view(&self) -> ClaseCharV {
        match self {
            ClaseChar::Alnum => ClaseCharV::Alnum(false),
            ClaseChar::Alpha => ClaseCharV::Alpha(false),
            ClaseChar::Digit => ClaseCharV::Digit(false),
            ClaseChar::Lower => ClaseCharV::Lower(false),
            ClaseChar::Upper => ClaseCharV::Upper(false),
            ClaseChar::Space => ClaseCharV::Space(false),
            ClaseChar::Punct => ClaseCharV::Punct(false),
            ClaseChar::Simple(v) => ClaseCharV::Simple(v@.to_set(), false),
        }
    }
}

impl Clone for ClaseChar {
    fn clone(&self) -> (r: Self)
        ensures
            r@ == self@,
    {
        match self {
            ClaseChar::Alnum => ClaseChar::Alnum,
            ClaseChar::Alpha => ClaseChar::Alpha,
            ClaseChar::Digit => ClaseChar::Digit,
            ClaseChar::Lower => ClaseChar::Lower,
            ClaseChar::Upper => ClaseChar::Upper,
            ClaseChar::Space => ClaseChar::Space,
            ClaseChar::Punct => ClaseChar::Punct,
            ClaseChar::Simple(v) => {
                let w = v.clone();
                assert(w@ =~= v@);
                ClaseChar::Simple(w)
            },
        }
    }
}

} // verus!
