use sql_csv::ejecutor::ejecutor_implementacion::{
    crear_ruta, juntar_words, limpiar_lista, obtener_indices_columnas,
};

fn lista(palabras: &[&str]) -> Vec<String> {
    palabras.iter().map(|p| p.to_string()).collect()
}

#[test]
fn path_of_a_table() {
    assert_eq!(crear_ruta(&"src".to_string(), &"ordenes".to_string()), "src/ordenes.csv");
    assert_eq!(crear_ruta(&"".to_string(), &"".to_string()), "/.csv");
    assert_eq!(crear_ruta(&"/tmp/datos/".to_string(), &"ñu".to_string()), "/tmp/datos//ñu.csv");
}

#[test]
fn column_positions() {
    let indices = obtener_indices_columnas(&lista(&["id", "nombre", "email"]));
    assert_eq!(indices.len(), 3);
    assert_eq!(indices.get("id"), Some(&0));
    assert_eq!(indices.get("nombre"), Some(&1));
    assert_eq!(indices.get("email"), Some(&2));
    assert_eq!(indices.get("Email"), None);
    assert!(!indices.contains_key(""));
    let repetidas = obtener_indices_columnas(&lista(&["a", "b", "a", ""]));
    assert_eq!(repetidas.len(), 3);
    assert_eq!(repetidas.get("a"), Some(&2));
    assert_eq!(repetidas.get(""), Some(&3));
    assert!(obtener_indices_columnas(&[]).is_empty());
}

#[test]
fn values_are_unwrapped() {
    assert_eq!(limpiar_lista("(111,"), lista(&["111"]));
    assert_eq!(limpiar_lista("6,"), lista(&["6"]));
    assert_eq!(limpiar_lista("'Laptop',"), lista(&["Laptop"]));
    assert_eq!(limpiar_lista("3)"), lista(&["3"]));
    assert_eq!(limpiar_lista("3);"), lista(&["3"]));
    assert_eq!(limpiar_lista("3;)"), lista(&["3;"]));
    assert_eq!(limpiar_lista("  (('x'));  "), lista(&["x'"]));
    assert_eq!(limpiar_lista(""), lista(&[""]));
    assert_eq!(limpiar_lista("(a, b ,c)"), lista(&["a", "b", "c"]));
    assert_eq!(limpiar_lista("(1, 'x', 'y z')"), lista(&["1", "x", "y z"]));
}

#[test]
fn quoted_words_are_joined() {
    assert_eq!(juntar_words(lista(&["a", "'b'", "c"])), lista(&["a", "b", "c"]));
    assert_eq!(juntar_words(lista(&["'New", "York'"])), lista(&["'New York'"]));
    assert_eq!(juntar_words(lista(&["'a", "b", "c'", "d"])), lista(&["'a  b c'", "d"]));
    assert_eq!(juntar_words(lista(&["x", "'a", "b"])), lista(&["x"]));
    assert_eq!(juntar_words(lista(&["a'", "b"])), lista(&["a'", "b"]));
    assert_eq!(juntar_words(lista(&["'", "''", ""])), lista(&["", "", ""]));
    assert_eq!(juntar_words(lista(&["'a", "'b'", "c'"])), lista(&["b", "'a c'"]));
    assert_eq!(juntar_words(Vec::new()), Vec::<String>::new());
}
