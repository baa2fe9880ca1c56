//! What can go wrong before any line is matched.
use vstd::prelude::*;

verus! {

/// What can go wrong with the arguments or the file, each with a message.
#[derive(Debug, Clone, Copy, PartialEq, Eq)]
pub enum Error {
    FallaAbrirArchivo,
    FallaLecturaArchivo,
    ArgumentosInvalidos,
}

impl Error {
    /// The message shown to the user for this error.
    pub fn mensaje(&self) -> (r: String)
        ensures
            r@ == mensaje_de(*self),
    {
        match self {
            Error::FallaAbrirArchivo => "Error: No se pudo abrir el archivo.".to_string(),
            Error::FallaLecturaArchivo => "Error: No se pudo leer el archivo.".to_string(),
            Error::ArgumentosInvalidos => "Error: La cantidad de argumentos no es válida.".to_string(),
        }
    }
}

/// The message of each error.
pub open spec fn mensaje_de(e: Error) -> Seq<char> {
    match e {
        Error::FallaAbrirArchivo => "Error: No se pudo abrir el archivo."@,
        Error::FallaLecturaArchivo => "Error: No se pudo leer el archivo."@,
        Error::ArgumentosInvalidos => "Error: La cantidad de argumentos no es válida."@,
    }
}

} // verus!
