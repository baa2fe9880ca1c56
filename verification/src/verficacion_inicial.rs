//! Checks on the command line before any file is read.
use vstd::prelude::*;
use crate::errors::Error;

verus! {

/// How many arguments the program takes, its own name included.
const CANTIDAD_ARGUMENTOS: usize = 3;

///Verifica si la cantidad de argumentos ingresados es correcta.
pub fn cantidad_correcta_argumentos(cantidad_argumentos: usize) -> (r: bool)
    ensures
        r == (cantidad_argumentos == 3),
{
    cantidad_argumentos == CANTIDAD_ARGUMENTOS
}

///Verifica si la cantidad de argumentos ingresados es correcta.
/// - Si la cantidad de argumentos es correcta, devuelve la ruta del archivo a leer (el último argumento).
/// - Si la cantidad de argumentos no es correcta, devuelve un error de tipo ArgumentosInvalidos.
pub fn verificar_inicio(args: Vec<String>) -> (r: Result<String, Error>)
    ensures
        args@.len() == 3 ==> r == Ok::<String, Error>(args@[2]),
        args@.len() != 3 ==> r == Err::<String, Error>(Error::ArgumentosInvalidos),
{
    if !cantidad_correcta_argumentos(args.len()) {
        return Err(Error::ArgumentosInvalidos);
    }

    Ok(args[args.len() - 1].clone())
}

} // verus!
