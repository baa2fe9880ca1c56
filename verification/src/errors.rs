//! The errors of the matcher and of the command line.
use vstd::prelude::*;

verus! {

/// What can go wrong, each with a message for the user.
#[derive(Debug, Clone, Copy, PartialEq, Eq)]
pub enum Error {
    FallaAbrirArchivo,
    FallaLecturaArchivo,
    ArgumentosInvalidos,
    CaracterNoProcesable,
    FormatoDeLineaNoASCII,
    ErrorEnLlaves,
    ErrorEnCorchetes,
    ErrorEnRepeticion,
    ErrorEnFuncionOR,
}

impl Error {
    /// The message shown to the user for this error.
    pub fn mensaje(&self) -> (r: String)
        ensures
            r@ == mensaje_de(*self),
    {
        match self {
            Error::FallaAbrirArchivo => "Error: No se pudo abrir el archivo.".to_string(),
            Error::FallaLecturaArchivo => "Error: No se pudo leer el archivo.".to_string(),
            Error::ArgumentosInvalidos => "Error: La cantidad de argumentos no es válida.".to_string(),
            Error::CaracterNoProcesable => "Error: Ingresaste un caracter no posible de procesar.".to_string(),
            Error::FormatoDeLineaNoASCII => "Error: La linea ingresada no esta en formato ASCII.".to_string(),
            Error::ErrorEnLlaves => "Error: No se cumple con el formato para el uso de las llaves correctamente.".to_string(),
            Error::ErrorEnCorchetes => "Error: No se cumple con el formato para el uso de los corchetes correctamente.".to_string(),
            Error::ErrorEnRepeticion => "Error: No se cumple con el formato para el uso de las repeticiones correctamente.".to_string(),
            Error::ErrorEnFuncionOR => "Error: No se cumple con el formato para el uso de la funcion OR correctamente.".to_string(),
        }
    }
}

/// The message of each error.
pub open spec fn mensaje_de(e: Error) -> Seq<char> {
    match e {
        Error::FallaAbrirArchivo => "Error: No se pudo abrir el archivo."@,
        Error::FallaLecturaArchivo => "Error: No se pudo leer el archivo."@,
        Error::ArgumentosInvalidos => "Error: La cantidad de argumentos no es válida."@,
        Error::CaracterNoProcesable => "Error: Ingresaste un caracter no posible de procesar."@,
        Error::FormatoDeLineaNoASCII => "Error: La linea ingresada no esta en formato ASCII."@,
        Error::ErrorEnLlaves => "Error: No se cumple con el formato para el uso de las llaves correctamente."@,
        Error::ErrorEnCorchetes => "Error: No se cumple con el formato para el uso de los corchetes correctamente."@,
        Error::ErrorEnRepeticion => "Error: No se cumple con el formato para el uso de las repeticiones correctamente."@,
        Error::ErrorEnFuncionOR => "Error: No se cumple con el formato para el uso de la funcion OR correctamente."@,
    }
}

} // verus!
