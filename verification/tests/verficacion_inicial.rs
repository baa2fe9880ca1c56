use grep_rustico::errors::Error;
use grep_rustico::verficacion_inicial::{cantidad_correcta_argumentos, verificar_inicio};

#[test]
fn test01_cantidad_correcta_argumentos() {
    assert_eq!(cantidad_correcta_argumentos(3), true);
    assert_eq!(cantidad_correcta_argumentos(2), false);
    assert_eq!(cantidad_correcta_argumentos(4), false);
}

/// With three arguments the file to read is the last one (reading it is the
/// program's part); with any other number the arguments are refused.
#[test]
fn test02_verificar_inicio() {
    assert_eq!(
        verificar_inicio(vec![
            "cargo run".to_string(),
            "abcd".to_string(),
            "/home/mari/Escritorio/tp1_taller/grep_rustico/prueba.txt".to_string()
        ]),
        Ok("/home/mari/Escritorio/tp1_taller/grep_rustico/prueba.txt".to_string())
    );
    assert_eq!(
        verificar_inicio(vec![
            "cargo run".to_string(),
            "abcd".to_string(),
            "prueba.txt".to_string(),
            "prueba2.txt".to_string()
        ]),
        Err(Error::ArgumentosInvalidos)
    );
}
