use sql_csv::comandos::comandos_implementacion::{
    parsear, parsear_tokens, parser_select, parser_update, Comandos,
};
use sql_csv::errores::errores_implementacion::Errores;

fn lista(palabras: &[&str]) -> Vec<String> {
    palabras.iter().map(|p| p.to_string()).collect()
}

#[test]
fn test_parser_insert_query_valida() {
    let comando =
        "INSERT INTO ordenes (id, id_cliente, producto, cantidad) VALUES (111, 6, 'Laptop', 3)";
    match parsear(&comando) {
        Ok(Comandos::Insert { tabla, into, valores }) => {
            let values_correcto: Vec<String> = vec![
                "(111,".to_string(),
                "6,".to_string(),
                "'Laptop',".to_string(),
                "3)".to_string(),
            ];
            let into_correcto: Vec<String> = vec![
                "id".to_string(),
                "id_cliente".to_string(),
                "producto".to_string(),
                "cantidad".to_string(),
            ];
            assert_eq!(tabla, "ordenes".to_string());
            assert_eq!(valores, values_correcto);
            assert_eq!(into, into_correcto);
        }
        _ => panic!("FALLO TEST INSERT"),
    }
}

#[test]
fn test_parser_insert_query_invalida() {
    let comando = "INSERT INTO ordenes VALUES (111, 6, 'Laptop', 3)";
    match parsear(&comando) {
        Err(e) => assert_eq!(e, Errores::InvalidSyntax),
        _ => panic!("FALLO TEST INSERT"),
    }
}

#[test]
fn test_parser_update_query_valida() {
    let comando = "UPDATE clientes
        SET email = 'pitymartinez@912.com.es'
        WHERE id = 4";
    match parsear(&comando) {
        Ok(Comandos::Update { tabla, clausula_set, clausula_where }) => {
            let set_correcta: String = "email = 'pitymartinez@912.com.es'".to_string();
            let where_correcta: String = "id = 4".to_string();
            assert_eq!(tabla, "clientes".to_string());
            assert_eq!(clausula_set, set_correcta);
            assert_eq!(clausula_where, where_correcta);
        }
        _ => panic!("FALLO TEST UPDATE"),
    }
}

#[test]
fn test_parser_update_query_invalida() {
    let comando = "UPDATE clientes
        email = 'pitymartinez@912.com.es'
        WHERE id = 4";
    match parsear(&comando) {
        Err(e) => {
            assert_eq!(e, Errores::InvalidSyntax)
        }
        _ => panic!("FALLO TEST UPDATE"),
    }
}

#[test]
fn test_parser_delete_query_valida() {
    let comando = "DELETE FROM clientes
        WHERE apellido = 'López'";
    match parsear(&comando) {
        Ok(Comandos::Delete { tabla, clausula_where }) => {
            let where_correcta: String = "apellido = 'López'".to_string();
            assert_eq!(tabla, "clientes".to_string());
            assert_eq!(clausula_where, where_correcta);
        }
        _ => panic!("FALLO TEST DELETE"),
    }
}

#[test]
fn test_parser_delete_query_invalida() {
    let comando = "DELETE clientes
        WHERE apellido = 'López'";
    match parsear(&comando) {
        Err(e) => {
            assert_eq!(e, Errores::InvalidSyntax)
        }
        _ => panic!("FALLO TEST DELETE"),
    }
}

#[test]
fn test_parser_select_query_valida() {
    let comando = "SELECT id, nombre, email
        FROM clientes *
        ORDER BY email DESC";
    match parsear(&comando) {
        Ok(Comandos::Select { campos, tabla, clausula_where, clausula_order }) => {
            let campos_correcta =
                vec!["id".to_string(), "nombre".to_string(), "email".to_string()];
            let tabla_correcta: String = "clientes".to_string();
            let where_correcta = "".to_string();
            let order_correcta: Vec<String> = vec!["email".to_string(), "DESC".to_string()];
            assert_eq!(campos, campos_correcta);
            assert_eq!(tabla, tabla_correcta);
            assert_eq!(clausula_where, where_correcta);
            assert_eq!(clausula_order, order_correcta);
        }
        _ => panic!("FALLO TEST SELECT"),
    }
}

#[test]
fn test_parser_select_query_invalida() {
    let comando = "SELECT id, nombre, email
        FROM clientes *
        ORDER";
    match parsear(&comando) {
        Err(e) => {
            assert_eq!(e, Errores::InvalidSyntax)
        }
        _ => panic!("FALLO TEST SELECT"),
    }
}

#[test]
fn empty_and_unknown_queries_are_syntax_errors() {
    assert_eq!(parsear(""), Err(Errores::InvalidSyntax));
    assert_eq!(parsear("   \n\t "), Err(Errores::InvalidSyntax));
    assert_eq!(parsear("DROP TABLE clientes"), Err(Errores::InvalidSyntax));
    assert_eq!(parsear("INSERT"), Err(Errores::InvalidSyntax));
    assert_eq!(parsear("UPDATE"), Err(Errores::InvalidSyntax));
    assert_eq!(parsear("DELETE"), Err(Errores::InvalidSyntax));
    assert_eq!(parsear("SELECT"), Err(Errores::InvalidSyntax));
}

#[test]
fn keywords_of_a_query_are_read_in_any_case() {
    assert_eq!(
        parsear("select id from clientes where id = 4 order by id desc"),
        Ok(Comandos::Select {
            campos: lista(&["id"]),
            tabla: "clientes".to_string(),
            clausula_where: "id = 4".to_string(),
            clausula_order: lista(&["id", "desc"]),
        })
    );
    assert_eq!(
        parsear("Delete From clientes Where id = 4"),
        Ok(Comandos::Delete { tabla: "clientes".to_string(), clausula_where: "id = 4".to_string() })
    );
    assert_eq!(
        parsear("update clientes set a = 1"),
        Ok(Comandos::Update {
            tabla: "clientes".to_string(),
            clausula_set: "a = 1".to_string(),
            clausula_where: "".to_string(),
        })
    );
    assert_eq!(
        parsear("insert into t (a) values (1)"),
        Ok(Comandos::Insert {
            tabla: "t".to_string(),
            into: lista(&["a"]),
            valores: lista(&["(1)"]),
        })
    );
}

#[test]
fn insert_needs_into_second_and_a_column_list() {
    assert_eq!(parsear("INSERT ordenes INTO (a) VALUES (1)"), Err(Errores::InvalidSyntax));
    assert_eq!(parsear("INSERT INTO ordenes (a)"), Err(Errores::InvalidSyntax));
    assert_eq!(parsear("INSERT INTO VALUES"), Err(Errores::InvalidSyntax));
    assert_eq!(
        parsear("INSERT INTO ordenes ((a ,b)) VALUES"),
        Ok(Comandos::Insert {
            tabla: "ordenes".to_string(),
            into: lista(&["a", "b"]),
            valores: Vec::new(),
        })
    );
    assert_eq!(
        parsear("INSERT INTO ordenes a,,b VALUES 1 2"),
        Ok(Comandos::Insert {
            tabla: "ordenes".to_string(),
            into: lista(&["a", "", "b"]),
            valores: lista(&["1", "2"]),
        })
    );
}

#[test]
fn update_needs_set_before_where_and_something_after_each() {
    assert_eq!(parsear("UPDATE t WHERE a = 1 SET b = 2"), Err(Errores::InvalidSyntax));
    assert_eq!(parsear("UPDATE t SET b = 2 WHERE"), Err(Errores::InvalidSyntax));
    assert_eq!(parsear("UPDATE t SET WHERE"), Err(Errores::InvalidSyntax));
    assert_eq!(
        parsear("UPDATE t SET"),
        Ok(Comandos::Update {
            tabla: "t".to_string(),
            clausula_set: "".to_string(),
            clausula_where: "".to_string(),
        })
    );
    assert_eq!(
        parsear("UPDATE t SET WHERE a = 1"),
        Ok(Comandos::Update {
            tabla: "t".to_string(),
            clausula_set: "".to_string(),
            clausula_where: "a = 1".to_string(),
        })
    );
    assert_eq!(
        parsear("UPDATE t SET a = 1,   b = 'x  y' WHERE c    >= 3"),
        Ok(Comandos::Update {
            tabla: "t".to_string(),
            clausula_set: "a = 1, b = 'x y'".to_string(),
            clausula_where: "c >= 3".to_string(),
        })
    );
}

#[test]
fn delete_strips_semicolons_from_the_table() {
    assert_eq!(
        parsear("DELETE FROM clientes;"),
        Ok(Comandos::Delete { tabla: "clientes".to_string(), clausula_where: "".to_string() })
    );
    assert_eq!(
        parsear("DELETE FROM clientes;;; WHERE"),
        Ok(Comandos::Delete { tabla: "clientes".to_string(), clausula_where: "".to_string() })
    );
    assert_eq!(parsear("DELETE FROM"), Err(Errores::InvalidSyntax));
    assert_eq!(parsear("DELETE clientes FROM x"), Err(Errores::InvalidSyntax));
}

#[test]
fn select_reads_fields_clause_and_ordering() {
    assert_eq!(
        parsear("SELECT * FROM clientes"),
        Ok(Comandos::Select {
            campos: lista(&["*"]),
            tabla: "clientes".to_string(),
            clausula_where: "".to_string(),
            clausula_order: Vec::new(),
        })
    );
    assert_eq!(
        parsear("SELECT a,, , b FROM t WHERE x = 1 AND y = 2 ORDER BY a ; DESC ;"),
        Ok(Comandos::Select {
            campos: lista(&["a", "b"]),
            tabla: "t".to_string(),
            clausula_where: "x = 1 AND y = 2".to_string(),
            clausula_order: lista(&["a", "DESC"]),
        })
    );
    assert_eq!(
        parsear("SELECT a FROM t ORDER BY a ; DESC"),
        Ok(Comandos::Select {
            campos: lista(&["a"]),
            tabla: "t".to_string(),
            clausula_where: "".to_string(),
            clausula_order: lista(&["a", ";", "DESC"]),
        })
    );
    assert_eq!(
        parsear("SELECT a FROM t WHERE ORDER BY"),
        Ok(Comandos::Select {
            campos: lista(&["a"]),
            tabla: "t".to_string(),
            clausula_where: "".to_string(),
            clausula_order: Vec::new(),
        })
    );
    assert_eq!(parsear("SELECT a FROM"), Err(Errores::InvalidSyntax));
    assert_eq!(parsear("SELECT a t"), Err(Errores::InvalidSyntax));
    assert_eq!(parsear("SELECT a FROM t WHERE x = 1 ORDER"), Err(Errores::InvalidSyntax));
    assert_eq!(parsear("SELECT a FROM t ORDER BY a WHERE x = 1"), Err(Errores::InvalidSyntax));
}

#[test]
fn the_upper_case_form_is_the_unicode_one() {
    assert_eq!(
        parsear("\u{17f}elect a from t"),
        Ok(Comandos::Select {
            campos: lista(&["a"]),
            tabla: "t".to_string(),
            clausula_where: "".to_string(),
            clausula_order: Vec::new(),
        })
    );
}

#[test]
fn tokens_are_parsed_by_their_upper_case_forms() {
    let palabras = |texto: &str| -> Vec<Vec<char>> {
        texto.split(' ').map(|p| p.chars().collect()).collect()
    };
    assert_eq!(
        parsear_tokens(&palabras("borra de t donde a = 1"), &palabras("DELETE FROM T WHERE A = 1")),
        Ok(Comandos::Delete { tabla: "t".to_string(), clausula_where: "a = 1".to_string() })
    );
    assert_eq!(
        parsear_tokens(&palabras("delete from t where a = 1"), &palabras("x x x x x x x")),
        Err(Errores::InvalidSyntax)
    );
    assert_eq!(
        parsear_tokens(&palabras("a b c"), &palabras("SELECT FROM T")),
        Ok(Comandos::Select {
            campos: Vec::new(),
            tabla: "c".to_string(),
            clausula_where: "".to_string(),
            clausula_order: Vec::new(),
        })
    );
    assert_eq!(
        parser_select(&palabras("a b"), &palabras("FROM T")),
        Err(Errores::InvalidSyntax)
    );
    assert_eq!(parser_update(&palabras("a"), &palabras("SET")), Err(Errores::InvalidSyntax));
    assert_eq!(
        parser_update(&palabras("a b"), &palabras("SET X")),
        Ok(Comandos::Update {
            tabla: "b".to_string(),
            clausula_set: "b".to_string(),
            clausula_where: "".to_string(),
        })
    );
    assert_eq!(parsear_tokens(&Vec::new(), &Vec::new()), Err(Errores::InvalidSyntax));
}
