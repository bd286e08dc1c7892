use sql_csv::analizador::analizador_implementacion::{
    adaptar_token, agrupar_expresion, cumple_c_w, obtener_subexpresiones, parsear_expresion,
};
use sql_csv::analizador::condicional::Condicional;
use sql_csv::analizador::expresion::Expresion;
use sql_csv::ejecutor::ejecutor_implementacion::{adaptar_where, obtener_indices_columnas};
use sql_csv::errores::errores_implementacion::Errores;

fn compilar(clausula: &str) -> Result<Expresion, Errores> {
    parsear_expresion(adaptar_where(clausula))
}

fn acepta(clausula: &str, columnas: &[&str], linea: &str) -> bool {
    let columnas: Vec<String> = columnas.iter().map(|c| c.to_string()).collect();
    let indices = obtener_indices_columnas(&columnas);
    let expresion = compilar(clausula).expect("the clause compiles");
    cumple_c_w(linea, &expresion, &indices).expect("evaluation never fails")
}

fn hoja(operador: &str, miembro1: &str, miembro2: &str) -> Expresion {
    let miembro1 = miembro1.to_string();
    let miembro2 = miembro2.to_string();
    let condicional = match operador {
        ">" => Condicional::Mayor { miembro1, miembro2 },
        ">=" => Condicional::MayorIgual { miembro1, miembro2 },
        "<" => Condicional::Menor { miembro1, miembro2 },
        "<=" => Condicional::MenorIgual { miembro1, miembro2 },
        _ => Condicional::Igual { miembro1, miembro2 },
    };
    Expresion::Operacion { condicional }
}

fn no(e: Expresion) -> Expresion {
    Expresion::Not { derecha: Box::new(e) }
}

fn y(a: Expresion, b: Expresion) -> Expresion {
    Expresion::And { izquierda: Box::new(a), derecha: Box::new(b) }
}

fn o(a: Expresion, b: Expresion) -> Expresion {
    Expresion::Or { izquierda: Box::new(a), derecha: Box::new(b) }
}

fn bit(b: bool) -> &'static str {
    if b {
        "1"
    } else {
        "0"
    }
}

#[test]
fn tokens_of_a_plain_clause() {
    assert_eq!(adaptar_where("id = 4"), vec!["id = 4".to_string()]);
    assert_eq!(adaptar_where("id=4"), vec!["id = 4".to_string()]);
    assert_eq!(adaptar_where("  id   >=4  "), vec!["id >= 4".to_string()]);
    assert_eq!(adaptar_where("a<=b"), vec!["a <= b".to_string()]);
    assert_eq!(adaptar_where(""), Vec::<String>::new());
    assert_eq!(adaptar_where("   "), Vec::<String>::new());
}

#[test]
fn tokens_keep_connectives_and_parentheses_apart() {
    assert_eq!(
        adaptar_where("a = 1 AND (b > 2 OR NOT c < 3)"),
        vec![
            "a = 1".to_string(),
            "AND".to_string(),
            "(".to_string(),
            "b > 2".to_string(),
            "OR".to_string(),
            "NOT".to_string(),
            "c < 3".to_string(),
            ")".to_string(),
        ]
    );
    assert_eq!(
        adaptar_where("(a=1)and(b=2)"),
        vec![
            "(".to_string(),
            "a = 1".to_string(),
            ")".to_string(),
            "and".to_string(),
            "(".to_string(),
            "b = 2".to_string(),
            ")".to_string(),
        ]
    );
}

#[test]
fn quoted_literal_is_one_operand() {
    assert_eq!(adaptar_where("name = 'John Smith'"), vec!["name = 'John Smith'".to_string()]);
    let expresion = compilar("name = 'John Smith'").unwrap();
    assert_eq!(expresion, hoja("=", "name", "'John Smith'"));
}

#[test]
fn quotes_shield_operators_and_parentheses() {
    assert_eq!(adaptar_where("a = '(x >= y)'"), vec!["a = '(x >= y)'".to_string()]);
    assert_eq!(
        adaptar_where("apellido = 'López' and email = 'ana.lopez@email.com'"),
        vec![
            "apellido = 'López'".to_string(),
            "and".to_string(),
            "email = 'ana.lopez@email.com'".to_string(),
        ]
    );
}

#[test]
fn a_double_equals_sign_is_no_operator() {
    assert_eq!(
        adaptar_where("a == b"),
        vec!["a".to_string(), "==".to_string(), "b".to_string()]
    );
    assert_eq!(compilar("a == b"), Err(Errores::InvalidSyntax));
}

#[test]
fn multi_word_right_operand_is_joined_by_single_spaces() {
    let expresion = parsear_expresion(vec!["ciudad   =  'Nueva   York  del Sur'".to_string()]);
    assert_eq!(expresion, Ok(hoja("=", "ciudad", "'Nueva York del Sur'")));
    let expresion = parsear_expresion(vec!["a > b c d e f".to_string()]);
    assert_eq!(expresion, Ok(hoja(">", "a", "b c d e f")));
}

#[test]
fn each_operator_builds_its_own_condition() {
    assert_eq!(compilar("a > b"), Ok(hoja(">", "a", "b")));
    assert_eq!(compilar("a >= b"), Ok(hoja(">=", "a", "b")));
    assert_eq!(compilar("a < b"), Ok(hoja("<", "a", "b")));
    assert_eq!(compilar("a <= b"), Ok(hoja("<=", "a", "b")));
    assert_eq!(compilar("a = b"), Ok(hoja("=", "a", "b")));
}

#[test]
fn malformed_conditions_are_syntax_errors() {
    assert_eq!(parsear_expresion(vec!["a =".to_string()]), Err(Errores::InvalidSyntax));
    assert_eq!(parsear_expresion(vec!["a".to_string()]), Err(Errores::InvalidSyntax));
    assert_eq!(parsear_expresion(vec!["a != b".to_string()]), Err(Errores::InvalidSyntax));
    assert_eq!(parsear_expresion(vec!["a <> b".to_string()]), Err(Errores::InvalidSyntax));
    assert_eq!(parsear_expresion(vec!["".to_string()]), Err(Errores::InvalidSyntax));
}

#[test]
fn keywords_are_read_in_any_case() {
    let esperado = o(y(no(hoja("=", "a", "1")), hoja("=", "b", "2")), hoja("=", "c", "3"));
    assert_eq!(compilar("NOT a = 1 AND b = 2 OR c = 3"), Ok(o(
        y(no(hoja("=", "a", "1")), hoja("=", "b", "2")),
        hoja("=", "c", "3"),
    )));
    assert_eq!(compilar("not a = 1 and b = 2 or c = 3"), Ok(esperado));
    assert_eq!(
        compilar("Not a = 1 aNd b = 2 oR c = 3"),
        Ok(o(y(no(hoja("=", "a", "1")), hoja("=", "b", "2")), hoja("=", "c", "3")))
    );
}

#[test]
fn precedence_holds_for_every_assignment() {
    for a in [false, true] {
        for b in [false, true] {
            for c in [false, true] {
                let linea = format!("{},{},{}", bit(a), bit(b), bit(c));
                let valor = acepta("NOT a = 1 AND b = 1 OR c = 1", &["a", "b", "c"], &linea);
                assert_eq!(valor, (!a && b) || c);
            }
        }
    }
}

#[test]
fn parentheses_change_the_truth_table() {
    let columnas = ["a", "b", "c"];
    assert!(!acepta("a = 1 AND (b = 1 OR c = 1)", &columnas, "0,0,1"));
    assert!(acepta("a = 1 AND b = 1 OR c = 1", &columnas, "0,0,1"));
    for a in [false, true] {
        for b in [false, true] {
            for c in [false, true] {
                let linea = format!("{},{},{}", bit(a), bit(b), bit(c));
                assert_eq!(acepta("a = 1 AND (b = 1 OR c = 1)", &columnas, &linea), a && (b || c));
                assert_eq!(acepta("a = 1 AND b = 1 OR c = 1", &columnas, &linea), (a && b) || c);
                assert_eq!(acepta("NOT (a = 1 OR b = 1)", &columnas, &linea), !(a || b));
                assert_eq!(
                    acepta("((a = 1) OR (NOT (b = 1 AND c = 1)))", &columnas, &linea),
                    a || !(b && c)
                );
            }
        }
    }
}

#[test]
fn chains_of_one_connective_group_to_the_left() {
    assert_eq!(
        compilar("a = 1 AND b = 2 AND c = 3"),
        Ok(y(y(hoja("=", "a", "1"), hoja("=", "b", "2")), hoja("=", "c", "3")))
    );
    assert_eq!(
        compilar("a = 1 OR b = 2 OR c = 3 OR d = 4"),
        Ok(o(
            o(o(hoja("=", "a", "1"), hoja("=", "b", "2")), hoja("=", "c", "3")),
            hoja("=", "d", "4"),
        ))
    );
    assert_eq!(
        compilar("a = 1 OR b = 2 AND c = 3 AND d = 4"),
        Ok(o(
            hoja("=", "a", "1"),
            y(y(hoja("=", "b", "2"), hoja("=", "c", "3")), hoja("=", "d", "4")),
        ))
    );
}

#[test]
fn unbalanced_parentheses_are_syntax_errors() {
    assert_eq!(compilar("(a = 1 AND b = 2"), Err(Errores::InvalidSyntax));
    assert_eq!(compilar("a = 1 AND b = 2)"), Err(Errores::InvalidSyntax));
    assert_eq!(compilar("((a = 1)"), Err(Errores::InvalidSyntax));
    assert_eq!(compilar(")a = 1("), Err(Errores::InvalidSyntax));
    assert_eq!(compilar("("), Err(Errores::InvalidSyntax));
    assert_eq!(compilar(")"), Err(Errores::InvalidSyntax));
}

#[test]
fn operators_without_operands_are_syntax_errors() {
    assert_eq!(compilar("NOT"), Err(Errores::InvalidSyntax));
    assert_eq!(compilar("a = 1 AND"), Err(Errores::InvalidSyntax));
    assert_eq!(compilar("AND a = 1"), Err(Errores::InvalidSyntax));
    assert_eq!(compilar("a = 1 OR"), Err(Errores::InvalidSyntax));
    assert_eq!(compilar("OR a = 1"), Err(Errores::InvalidSyntax));
    assert_eq!(compilar("a = 1 b = 2"), Err(Errores::InvalidSyntax));
    assert_eq!(compilar("a = 1 NOT b = 2"), Err(Errores::InvalidSyntax));
    assert_eq!(compilar("()"), Err(Errores::InvalidSyntax));
    assert_eq!(compilar("a = 1 AND ()"), Err(Errores::InvalidSyntax));
}

#[test]
fn empty_clause_accepts_every_row() {
    let expresion = parsear_expresion(Vec::new()).unwrap();
    assert_eq!(expresion, Expresion::Unknown);
    let indices = obtener_indices_columnas(&["id".to_string(), "name".to_string()]);
    for linea in ["10,Bob", "", ",,,", "x"] {
        assert_eq!(cumple_c_w(linea, &expresion, &indices), Ok(true));
    }
    let expresion = compilar("").unwrap();
    assert_eq!(cumple_c_w("10,Bob", &expresion, &indices), Ok(true));
}

#[test]
fn compiling_twice_gives_the_same_verdicts() {
    let clausula = "NOT id > 5 OR (name = 'Bob' AND id <= 10)";
    let una = compilar(clausula).unwrap();
    let otra = compilar(clausula).unwrap();
    let indices = obtener_indices_columnas(&["id".to_string(), "name".to_string()]);
    for linea in ["10,Bob", "3,Ana", "7,Bob", "9", "", "50, Bob "] {
        assert_eq!(cumple_c_w(linea, &una, &indices), cumple_c_w(linea, &otra, &indices));
    }
}

#[test]
fn columns_against_literals() {
    let columnas = ["id", "name"];
    assert!(acepta("id > 5", &columnas, "10,Bob") == ("10" > "5"));
    assert!(acepta("name = 'Bob'", &columnas, "10,Bob"));
    assert!(!acepta("age = 5", &columnas, "10,Bob"));
    assert!(!acepta("name = 'Ana'", &columnas, "10,Bob"));
    assert!(acepta("'Bob' = name", &columnas, "10,Bob"));
    assert!(acepta("10 = id", &columnas, "10,Bob"));
    assert!(acepta("id = 10", &columnas, " 10 , Bob "));
}

#[test]
fn numbers_are_compared_as_text() {
    let columnas = ["id", "name"];
    assert!(!acepta("id > 5", &columnas, "10,Bob"));
    assert!(acepta("id < 5", &columnas, "10,Bob"));
    assert!(acepta("id > 5", &columnas, "6,Bob"));
    assert!(acepta("id >= 10", &columnas, "10,Bob"));
    assert!(acepta("id <= 10", &columnas, "10,Bob"));
    assert!(acepta("id < 100", &columnas, "10,Bob"));
    assert!(acepta("id > 1", &columnas, "10,Bob"));
    assert!(!acepta("id > 10", &columnas, "10,Bob"));
    assert!(!acepta("id < 10", &columnas, "10,Bob"));
}

#[test]
fn two_columns_are_compared_by_their_fields() {
    let columnas = ["a", "b"];
    assert!(acepta("a = b", &columnas, "x,x"));
    assert!(!acepta("a = b", &columnas, "x,y"));
    assert!(acepta("a < b", &columnas, "x,y"));
    assert!(acepta("b > a", &columnas, "x,y"));
    assert!(acepta("a <= b", &columnas, "x,xa"));
    assert!(!acepta("a >= b", &columnas, "x,xa"));
    assert!(acepta("a < b", &columnas, "Z,a"));
    assert!(acepta("a < b", &columnas, "z,é"));
    assert!(acepta("a > b", &columnas, "\u{10000},\u{ffff}"));
}

#[test]
fn operands_of_other_shapes_never_match() {
    let columnas = ["id", "name"];
    assert!(!acepta("name = Bob", &columnas, "10,Bob"));
    assert!(!acepta("name = 'Bob", &columnas, "10,Bob"));
    assert!(!acepta("name = Bob'", &columnas, "10,Bob"));
    assert!(!acepta("id = 1x", &columnas, "1x,Bob"));
    assert!(!acepta("5 = 5", &columnas, "10,Bob"));
    assert!(!acepta("'a' = 'a'", &columnas, "10,Bob"));
    assert!(!acepta("5 < 6", &columnas, "10,Bob"));
}

#[test]
fn every_quote_at_either_end_is_stripped() {
    let columnas = ["id", "name"];
    assert!(acepta("name = ''Bob''", &columnas, "10,Bob"));
    assert!(acepta("name = 'B'ob'", &columnas, "10,B'ob"));
    assert!(acepta("name = ''", &columnas, "10,"));
    assert!(!acepta("name = ''", &columnas, "10,Bob"));
}

#[test]
fn missing_fields_make_a_comparison_false() {
    let columnas = ["id", "name", "age"];
    assert!(!acepta("age = 5", &columnas, "10,Bob"));
    assert!(acepta("NOT age = 5", &columnas, "10,Bob"));
    assert!(!acepta("age = name", &columnas, "10,Bob"));
    assert!(!acepta("age >= 0", &columnas, "10,Bob"));
    assert!(acepta("age = 5", &columnas, "10,Bob,5"));
}

#[test]
fn a_repeated_column_name_means_its_last_position() {
    assert!(acepta("a = 2", &["a", "b", "a"], "1,x,2"));
    assert!(!acepta("a = 1", &["a", "b", "a"], "1,x,2"));
}

#[test]
fn a_connective_is_no_operand() {
    for clausula in [
        "NOT AND",
        "NOT OR",
        "NOT NOT",
        "NOT NOT a = 1",
        "a = 1 AND OR",
        "a = 1 OR OR",
        "a = 1 AND AND",
        "a = 1 OR AND",
        "OR AND a = 1",
        "a = 1 AND NOT",
        "a = 1 AND (NOT OR)",
        "(AND) OR a = 1",
    ] {
        assert_eq!(compilar(clausula), Err(Errores::InvalidSyntax), "{}", clausula);
    }
}

fn es_completa(e: &Expresion) -> bool {
    match e {
        Expresion::Not { derecha } => es_completa(derecha),
        Expresion::And { izquierda, derecha } => es_completa(izquierda) && es_completa(derecha),
        Expresion::Or { izquierda, derecha } => es_completa(izquierda) && es_completa(derecha),
        Expresion::Operacion { .. } => true,
        _ => false,
    }
}

#[test]
fn a_compiled_clause_is_a_whole_tree() {
    let palabras = ["NOT", "AND", "OR", "(", ")", "a = 1", "b > 2"];
    let mut semilla: u64 = 11;
    let mut compiladas = 0;
    for _ in 0..20000 {
        let mut tokens: Vec<String> = Vec::new();
        semilla = semilla.wrapping_mul(6364136223846793005).wrapping_add(1442695040888963407);
        let largo = 1 + (semilla >> 33) % 7;
        for _ in 0..largo {
            semilla = semilla.wrapping_mul(6364136223846793005).wrapping_add(1442695040888963407);
            tokens.push(palabras[((semilla >> 33) % palabras.len() as u64) as usize].to_string());
        }
        if let Ok(expresion) = parsear_expresion(tokens.clone()) {
            assert!(es_completa(&expresion), "{:?}", tokens);
            compiladas += 1;
        }
    }
    assert!(compiladas > 100);
}

#[test]
fn a_token_is_adapted_by_its_upper_case_form() {
    assert_eq!(adaptar_token("y", "AND"), Ok(y(Expresion::Unknown, Expresion::Unknown)));
    assert_eq!(adaptar_token("o", "OR"), Ok(o(Expresion::Unknown, Expresion::Unknown)));
    assert_eq!(adaptar_token("no", "NOT"), Ok(no(Expresion::Unknown)));
    assert_eq!(adaptar_token("[", "("), Ok(Expresion::Ipar));
    assert_eq!(adaptar_token("]", ")"), Ok(Expresion::Dpar));
    assert_eq!(adaptar_token("a = 1", "A = 1"), Ok(hoja("=", "a", "1")));
    assert_eq!(adaptar_token("and", "and"), Err(Errores::InvalidSyntax));
    assert_eq!(adaptar_token("a   <=\t b  c", ""), Ok(hoja("<=", "a", "b c")));
}

#[test]
fn grouping_works_on_nodes() {
    let pendiente_y = || y(Expresion::Unknown, Expresion::Unknown);
    let pendiente_o = || o(Expresion::Unknown, Expresion::Unknown);
    let a = || hoja("=", "a", "1");
    let b = || hoja("=", "b", "2");
    let c = || hoja("=", "c", "3");
    assert_eq!(
        agrupar_expresion(vec![no(Expresion::Unknown), a(), pendiente_y(), b(), pendiente_o(), c()]),
        Ok(o(y(no(a()), b()), c()))
    );
    assert_eq!(agrupar_expresion(Vec::new()), Err(Errores::InvalidSyntax));
    assert_eq!(agrupar_expresion(vec![a(), b()]), Err(Errores::InvalidSyntax));
    assert_eq!(agrupar_expresion(vec![a(), Expresion::Ipar]), Err(Errores::InvalidSyntax));
    assert_eq!(agrupar_expresion(vec![Expresion::Ipar]), Err(Errores::InvalidSyntax));
    assert_eq!(agrupar_expresion(vec![Expresion::Unknown]), Err(Errores::InvalidSyntax));
    assert_eq!(agrupar_expresion(vec![no(Expresion::Unknown)]), Err(Errores::InvalidSyntax));
    assert_eq!(
        agrupar_expresion(vec![pendiente_o(), pendiente_y(), a()]),
        Err(Errores::InvalidSyntax)
    );
    assert_eq!(
        agrupar_expresion(vec![no(Expresion::Unknown), pendiente_y()]),
        Err(Errores::InvalidSyntax)
    );
    assert_eq!(
        agrupar_expresion(vec![a(), pendiente_y(), no(pendiente_o())]),
        Err(Errores::InvalidSyntax)
    );
    assert_eq!(
        agrupar_expresion(vec![no(Expresion::Unknown), y(a(), b())]),
        Ok(no(y(a(), b())))
    );
    assert_eq!(
        obtener_subexpresiones(vec![
            a(),
            pendiente_y(),
            Expresion::Ipar,
            b(),
            pendiente_o(),
            c(),
            Expresion::Dpar,
        ]),
        Ok(y(a(), o(b(), c())))
    );
    assert_eq!(
        obtener_subexpresiones(vec![no(Expresion::Unknown), Expresion::Ipar, a(), Expresion::Dpar]),
        Ok(no(a()))
    );
    assert_eq!(
        obtener_subexpresiones(vec![Expresion::Ipar, a(), Expresion::Dpar, Expresion::Dpar]),
        Err(Errores::InvalidSyntax)
    );
    assert_eq!(obtener_subexpresiones(Vec::new()), Err(Errores::InvalidSyntax));
}
