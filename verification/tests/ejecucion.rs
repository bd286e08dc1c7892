use sql_csv::comandos::comandos_implementacion::{parsear, Comandos};
use sql_csv::ejecutor::ejecutor_delete::ejecutar_delete;
use sql_csv::ejecutor::ejecutor_implementacion::{ejecutar_comando, Efecto};
use sql_csv::ejecutor::ejecutor_insert::ejecutar_insert;
use sql_csv::ejecutor::ejecutor_select::{ejecutar_select, ordenar_resultado};
use sql_csv::ejecutor::ejecutor_implementacion::obtener_indices_columnas;
use sql_csv::ejecutor::ejecutor_update::{actualizar_linea, ejecutar_update};
use sql_csv::errores::errores_implementacion::{mensaje_error, Errores};

fn lista(palabras: &[&str]) -> Vec<String> {
    palabras.iter().map(|p| p.to_string()).collect()
}

fn clientes() -> Vec<String> {
    lista(&[
        "id,nombre,apellido,email",
        "1,Juan,Pérez,juan.perez@email.com",
        "2,Ana,López,ana.lopez@email.com",
        "3,Carlos,Gómez,carlos.gomez@email.com",
        "4,María,Rodríguez,maria.rodriguez@email.com",
        "5,José,López,jose.lopez@email.com",
    ])
}

fn ordenes() -> Vec<String> {
    lista(&[
        "id,id_cliente,producto,cantidad",
        "101,1,Laptop,1",
        "103,1,Monitor,1",
        "102,2,Teléfono,2",
    ])
}

fn ejecutar(consulta: &str, tabla: &Vec<String>) -> Result<Efecto, Errores> {
    ejecutar_comando(parsear(consulta).expect("the query parses"), Some(tabla))
}

#[test]
fn test_insert_valida() {
    let query: Comandos = Comandos::Insert {
        tabla: "ordenes".to_string(),
        into: vec![
            "(id,".to_string(),
            "id_cliente,".to_string(),
            "producto,".to_string(),
            "cantidad)".to_string(),
        ],
        valores: vec![
            "(111,".to_string(),
            "6,".to_string(),
            "'Laptop',".to_string(),
            "3)".to_string(),
        ],
    };
    match ejecutar_comando(query, Some(&ordenes())) {
        Ok(Efecto::Agregar(lineas)) => {
            assert_eq!(lineas.contains(&"111,6,Laptop,3".to_string()), true);
            assert_eq!(lineas, lista(&["111,6,Laptop,3"]));
        }
        _ => panic!("FALLO TEST INSERT"),
    }
}

#[test]
fn test_insert_invalida() {
    let query: Comandos = Comandos::Insert {
        tabla: "ordenes".to_string(),
        into: vec![
            "(id,".to_string(),
            "id_cliente,".to_string(),
            "hola,".to_string(),
            "cantidad)".to_string(),
        ],
        valores: vec![
            "(111,".to_string(),
            "6,".to_string(),
            "'Laptop',".to_string(),
            "3)".to_string(),
        ],
    };
    match ejecutar_comando(query, Some(&ordenes())) {
        Err(e) => assert_eq!(e, Errores::Error),
        _ => panic!("FALLO TEST INSERT"),
    }
}

#[test]
fn test_delete_valida() {
    let query: Comandos = Comandos::Delete {
        tabla: "clientes".to_string(),
        clausula_where: "apellido = 'López' and email = 'ana.lopez@email.com'".to_string(),
    };
    match ejecutar_comando(query, Some(&clientes())) {
        Ok(Efecto::Reescribir(lineas)) => {
            assert_eq!(lineas.contains(&"2,Ana,López,ana.lopez@email.com".to_string()), false);
            assert_eq!(
                lineas,
                lista(&[
                    "id,nombre,apellido,email",
                    "1,Juan,Pérez,juan.perez@email.com",
                    "3,Carlos,Gómez,carlos.gomez@email.com",
                    "4,María,Rodríguez,maria.rodriguez@email.com",
                    "5,José,López,jose.lopez@email.com",
                ])
            );
        }
        _ => panic!("FALLO TEST DELETE"),
    }
}

#[test]
fn test_delete_invalida() {
    let query: Comandos = Comandos::Delete {
        tabla: "cliente".to_string(),
        clausula_where: "apellido = 'López' and email = 'ana.lopez@email.com'".to_string(),
    };
    match ejecutar_comando(query, None) {
        Err(e) => assert_eq!(e, Errores::Error),
        _ => panic!("FALLO TEST DELETE"),
    }
}

#[test]
fn test_update_valida() {
    let query: Comandos = Comandos::Update {
        tabla: "clientes".to_string(),
        clausula_set: "email = 'mrodriguez@hotmail.com'".to_string(),
        clausula_where: "id = 4".to_string(),
    };
    match ejecutar_comando(query, Some(&clientes())) {
        Ok(Efecto::Reescribir(lineas)) => {
            assert_eq!(
                lineas.contains(&"4,María,Rodríguez,mrodriguez@hotmail.com".to_string()),
                true
            );
            assert_eq!(
                lineas,
                lista(&[
                    "id,nombre,apellido,email",
                    "1,Juan,Pérez,juan.perez@email.com",
                    "2,Ana,López,ana.lopez@email.com",
                    "3,Carlos,Gómez,carlos.gomez@email.com",
                    "4,María,Rodríguez,mrodriguez@hotmail.com",
                    "5,José,López,jose.lopez@email.com",
                ])
            );
        }
        _ => panic!("FALLO TEST UPDATE"),
    }
}

#[test]
fn a_query_of_another_kind_is_refused() {
    let borrar = parsear("DELETE FROM clientes").unwrap();
    let insertar = parsear("INSERT INTO t (a) VALUES (1)").unwrap();
    let tabla = clientes();
    assert_eq!(ejecutar_insert(&borrar, Some(&tabla)), Err(Errores::Error));
    assert_eq!(ejecutar_update(&borrar, Some(&tabla)), Err(Errores::Error));
    assert_eq!(ejecutar_delete(&insertar, Some(&tabla)), Err(Errores::Error));
    assert_eq!(ejecutar_select(&insertar, Some(&tabla)), Err(Errores::InvalidSyntax));
}

#[test]
fn a_table_that_cannot_be_read_or_is_empty_is_an_error() {
    let vacia: Vec<String> = Vec::new();
    for consulta in [
        "INSERT INTO t (id) VALUES (1)",
        "UPDATE t SET id = 1",
        "DELETE FROM t",
        "SELECT * FROM t",
    ] {
        assert_eq!(ejecutar_comando(parsear(consulta).unwrap(), None), Err(Errores::Error));
        assert_eq!(ejecutar(consulta, &vacia), Err(Errores::Error));
    }
}

#[test]
fn a_bad_clause_is_reported_before_a_missing_table() {
    for consulta in [
        "UPDATE t SET id = 1 WHERE (id = 1",
        "DELETE FROM t WHERE id = 1 AND",
        "SELECT * FROM t WHERE id",
    ] {
        assert_eq!(
            ejecutar_comando(parsear(consulta).unwrap(), None),
            Err(Errores::InvalidSyntax)
        );
    }
    assert_eq!(
        ejecutar_comando(parsear("UPDATE t SET id WHERE (id = 1").unwrap(), None),
        Err(Errores::Error)
    );
}

#[test]
fn insert_fills_the_named_columns_only() {
    assert_eq!(
        ejecutar("INSERT INTO ordenes (cantidad, id) VALUES (7, 200)", &ordenes()),
        Ok(Efecto::Agregar(lista(&["200,,,7"])))
    );
    assert_eq!(
        ejecutar("INSERT INTO ordenes (producto, id) VALUES ('a', 1) ('b', 2) ('c', 3)", &ordenes()),
        Ok(Efecto::Agregar(lista(&["1,,a,", "2,,b,", "3,,c,"])))
    );
    assert_eq!(
        ejecutar("INSERT INTO ordenes (id, producto) VALUES (1, 'a'), (2, 'b')", &ordenes()),
        Ok(Efecto::Agregar(lista(&["1,,a',", "2,,b',"])))
    );
    assert_eq!(
        ejecutar("INSERT INTO ordenes (id, id) VALUES (1, 2)", &ordenes()),
        Ok(Efecto::Agregar(lista(&["2,,,"])))
    );
    assert_eq!(
        ejecutar("INSERT INTO ordenes (id, producto) VALUES (1, a), (2)", &ordenes()),
        Ok(Efecto::Agregar(lista(&["1,,a,"])))
    );
}

#[test]
fn insert_refuses_what_does_not_fit_the_table() {
    let tabla = ordenes();
    assert_eq!(
        ejecutar("INSERT INTO ordenes (id, id_cliente, producto, cantidad, x) VALUES (1, 2, 3, 4, 5)", &tabla),
        Err(Errores::Error)
    );
    assert_eq!(ejecutar("INSERT INTO ordenes (id, producto) VALUES (1)", &tabla), Err(Errores::Error));
    assert_eq!(ejecutar("INSERT INTO ordenes (id) VALUES", &tabla), Err(Errores::Error));
    assert_eq!(ejecutar("INSERT INTO ordenes (nada) VALUES (1)", &tabla), Err(Errores::Error));
    let sin_nombres = Comandos::Insert {
        tabla: "ordenes".to_string(),
        into: Vec::new(),
        valores: lista(&["1"]),
    };
    assert_eq!(ejecutar_comando(sin_nombres, Some(&tabla)), Err(Errores::Error));
    let sin_valor = Comandos::Insert {
        tabla: "ordenes".to_string(),
        into: lista(&["id"]),
        valores: lista(&["( 'a"]),
    };
    assert_eq!(ejecutar_comando(sin_valor, Some(&tabla)), Err(Errores::Error));
}

#[test]
fn delete_without_a_clause_leaves_the_header() {
    assert_eq!(
        ejecutar("DELETE FROM clientes", &clientes()),
        Ok(Efecto::Reescribir(lista(&["id,nombre,apellido,email"])))
    );
    assert_eq!(
        ejecutar("DELETE FROM clientes WHERE id > 3 OR nombre = 'Ana';", &clientes()),
        Ok(Efecto::Reescribir(lista(&[
            "id,nombre,apellido,email",
            "1,Juan,Pérez,juan.perez@email.com",
            "3,Carlos,Gómez,carlos.gomez@email.com",
        ])))
    );
    assert_eq!(
        ejecutar("DELETE FROM clientes WHERE edad = 3", &clientes()),
        Ok(Efecto::Reescribir(clientes()))
    );
}

#[test]
fn update_changes_the_rows_that_meet_the_clause() {
    assert_eq!(
        ejecutar("UPDATE clientes SET nombre = 'X Y', email = z WHERE apellido = 'López'", &clientes()),
        Ok(Efecto::Reescribir(lista(&[
            "id,nombre,apellido,email",
            "1,Juan,Pérez,juan.perez@email.com",
            "2,X Y,López,z",
            "3,Carlos,Gómez,carlos.gomez@email.com",
            "4,María,Rodríguez,maria.rodriguez@email.com",
            "5,X Y,López,z",
        ])))
    );
    assert_eq!(
        ejecutar("UPDATE ordenes SET cantidad = 0", &ordenes()),
        Ok(Efecto::Reescribir(lista(&[
            "id,id_cliente,producto,cantidad",
            "101,1,Laptop,0",
            "103,1,Monitor,0",
            "102,2,Teléfono,0",
        ])))
    );
}

#[test]
fn update_refuses_unknown_and_repeated_columns() {
    let tabla = clientes();
    assert_eq!(ejecutar("UPDATE clientes SET edad = 3", &tabla), Err(Errores::InvalidColumn));
    assert_eq!(
        ejecutar("UPDATE clientes SET id = 3,id = 4", &tabla),
        Err(Errores::InvalidColumn)
    );
    assert_eq!(
        ejecutar("UPDATE clientes SET id = 3, id = 4 WHERE id = 1", &tabla).map(|e| match e {
            Efecto::Reescribir(lineas) => lineas[1].clone(),
            _ => String::new(),
        }),
        Ok("4,Juan,Pérez,juan.perez@email.com".to_string())
    );
    assert_eq!(
        ejecutar("UPDATE clientes SET id = 1, nombre = 2, apellido = 3, email = 4, id = 5", &tabla),
        Err(Errores::InvalidColumn)
    );
    assert_eq!(ejecutar("UPDATE clientes SET id = 3 = 4", &tabla), Err(Errores::Error));
    assert_eq!(ejecutar("UPDATE clientes SET id", &tabla), Err(Errores::Error));
    let corta = lista(&["id,nombre", "1", "2,b"]);
    assert_eq!(ejecutar("UPDATE t SET nombre = x WHERE id = 1", &corta), Err(Errores::Error));
    assert_eq!(
        ejecutar("UPDATE t SET nombre = x WHERE id = 2", &corta),
        Ok(Efecto::Reescribir(lista(&["id,nombre", "1", "2,x"])))
    );
}

#[test]
fn select_shows_the_chosen_fields_in_order() {
    assert_eq!(
        ejecutar("SELECT * FROM ordenes", &ordenes()),
        Ok(Efecto::Mostrar(ordenes()))
    );
    assert_eq!(
        ejecutar("SELECT producto, id FROM ordenes WHERE id_cliente = 1 ORDER BY producto DESC", &ordenes()),
        Ok(Efecto::Mostrar(lista(&["producto,id", "Monitor,103", "Laptop,101"])))
    );
    assert_eq!(
        ejecutar("SELECT id, nada, cantidad FROM ordenes ORDER BY id", &ordenes()),
        Ok(Efecto::Mostrar(lista(&["id,nada,cantidad", "101,1", "102,2", "103,1"])))
    );
    assert_eq!(
        ejecutar("SELECT id FROM ordenes WHERE cantidad = 1 ORDER BY id asc;", &ordenes()),
        Ok(Efecto::Mostrar(lista(&["id", "101", "103"])))
    );
    assert_eq!(
        ejecutar("SELECT id FROM ordenes WHERE cantidad = 9", &ordenes()),
        Ok(Efecto::Mostrar(lista(&["id"])))
    );
}

#[test]
fn select_refuses_a_bad_ordering() {
    let tabla = ordenes();
    assert_eq!(ejecutar("SELECT id FROM ordenes ORDER BY nada", &tabla), Err(Errores::InvalidSyntax));
    assert_eq!(
        ejecutar("SELECT id FROM ordenes ORDER BY id arriba", &tabla),
        Err(Errores::InvalidSyntax)
    );
}

#[test]
fn ordering_is_stable_and_by_text() {
    let indices = obtener_indices_columnas(&lista(&["a", "b"]));
    let lineas = lista(&["10,x", "9,y", "10,z", " 9 ,w", "100,v"]);
    assert_eq!(
        ordenar_resultado(lineas.clone(), &indices, &lista(&["a"])),
        Ok(vec![
            lista(&["10", "x"]),
            lista(&["10", "z"]),
            lista(&["100", "v"]),
            lista(&["9", "y"]),
            lista(&["9", "w"]),
        ])
    );
    assert_eq!(
        ordenar_resultado(lineas.clone(), &indices, &lista(&["a", "desc;;"])),
        Ok(vec![
            lista(&["9", "y"]),
            lista(&["9", "w"]),
            lista(&["100", "v"]),
            lista(&["10", "x"]),
            lista(&["10", "z"]),
        ])
    );
    assert_eq!(
        ordenar_resultado(lineas.clone(), &indices, &Vec::new()),
        Ok(vec![
            lista(&["10", "x"]),
            lista(&["9", "y"]),
            lista(&["10", "z"]),
            lista(&["9", "w"]),
            lista(&["100", "v"]),
        ])
    );
    assert_eq!(ordenar_resultado(lineas.clone(), &indices, &lista(&["c"])), Err(Errores::InvalidSyntax));
    assert_eq!(
        ordenar_resultado(lineas.clone(), &indices, &lista(&["a", "up"])),
        Err(Errores::Error)
    );
    assert_eq!(
        ordenar_resultado(lista(&["1,x", "2"]), &indices, &lista(&["b"])),
        Err(Errores::Error)
    );
    assert_eq!(
        ordenar_resultado(lista(&["2"]), &indices, &lista(&["b"])),
        Ok(vec![lista(&["2"])])
    );
}

#[test]
fn error_messages() {
    assert_eq!(mensaje_error(Errores::InvalidTable, "a"), "[INVALID_TABLE]: a");
    assert_eq!(mensaje_error(Errores::InvalidColumn, ""), "[INVALID_COLUMN]: ");
    assert_eq!(
        mensaje_error(Errores::InvalidSyntax, "Error en la cláusula WHERE"),
        "[INVALID_SYNTAX]: Error en la cláusula WHERE"
    );
    assert_eq!(mensaje_error(Errores::Error, "x y"), "[ERROR]: x y");
}

#[test]
fn an_assignment_is_read_by_its_first_two_parts() {
    let indices = obtener_indices_columnas(&lista(&["id", "nombre"]));
    let set = vec![lista(&[" nombre ", " 'x'", "y", "z"]), lista(&["id", "7"])];
    assert_eq!(actualizar_linea("1,a", &set, &indices), Ok("7,x".to_string()));
    assert_eq!(actualizar_linea("1", &set, &indices), Err(Errores::Error));
    assert_eq!(actualizar_linea("1,a", &Vec::new(), &indices), Ok("1,a".to_string()));
}

#[test]
fn a_clause_with_a_connective_for_operand_changes_no_table() {
    for consulta in [
        "DELETE FROM clientes WHERE NOT AND",
        "DELETE FROM clientes WHERE id = 1 OR OR",
        "UPDATE clientes SET id = 1 WHERE NOT OR",
        "SELECT * FROM clientes WHERE id = 1 AND OR",
    ] {
        assert_eq!(ejecutar(consulta, &clientes()), Err(Errores::InvalidSyntax), "{}", consulta);
    }
}
