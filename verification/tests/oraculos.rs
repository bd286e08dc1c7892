use sql_csv::analizador::analizador_implementacion::parsear_expresion;
use sql_csv::analizador::condicional::Condicional;
use sql_csv::analizador::expresion::Expresion;
use sql_csv::ejecutor::ejecutor_implementacion::{
    adaptar_where, agrupar_condicionales, juntar_words, limpiar_lista,
};

/// A small deterministic source of test texts.
struct Fuente(u64);

impl Fuente {
    fn siguiente(&mut self) -> u64 {
        self.0 = self.0.wrapping_mul(6364136223846793005).wrapping_add(1442695040888963407);
        self.0 >> 33
    }

    fn texto(&mut self, alfabeto: &[char], largo_maximo: u64) -> String {
        let largo = self.siguiente() % (largo_maximo + 1);
        (0..largo).map(|_| alfabeto[(self.siguiente() % alfabeto.len() as u64) as usize]).collect()
    }
}

/// The tokens of a clause, computed with the standard library.
fn tokens_esperados(query: &str) -> Vec<String> {
    let mut tokens: Vec<String> = Vec::new();
    let mut token = String::new();
    let mut en_comillas = false;
    let mut chars = query.chars().peekable();
    while let Some(c) = chars.next() {
        if c == '\'' {
            en_comillas = !en_comillas;
            token.push(c);
        } else if en_comillas {
            token.push(c);
        } else if c.is_whitespace() || "()<>=".contains(c) {
            if !token.is_empty() {
                tokens.push(std::mem::take(&mut token));
            }
            if c == '(' || c == ')' {
                tokens.push(c.to_string());
            } else if !c.is_whitespace() {
                let mut operador = c.to_string();
                if chars.peek() == Some(&'=') {
                    operador.push('=');
                    chars.next();
                }
                tokens.push(operador);
            }
        } else {
            token.push(c);
        }
    }
    if !token.is_empty() {
        tokens.push(token);
    }
    let mut unidos = Vec::new();
    let mut i = 0;
    while i < tokens.len() {
        if i + 2 < tokens.len() && [">", "<", "=", ">=", "<="].contains(&tokens[i + 1].as_str()) {
            unidos.push([tokens[i].as_str(), tokens[i + 1].as_str(), tokens[i + 2].as_str()].join(" "));
            i += 3;
        } else {
            unidos.push(tokens[i].clone());
            i += 1;
        }
    }
    unidos
}

/// The values of a list of words, computed with the standard library.
fn palabras_esperadas(palabras: &[String]) -> Vec<String> {
    let mut nueva: Vec<String> = Vec::new();
    let mut aux: Vec<String> = Vec::new();
    let mut centinela = false;
    for palabra in palabras {
        let abre = palabra.starts_with('\'');
        let cierra = palabra.ends_with('\'');
        if abre && cierra {
            nueva.push(palabra.trim_matches('\'').to_string());
        } else if abre {
            aux.push(palabra.clone());
            centinela = true;
        } else if cierra {
            aux.push(palabra.clone());
            nueva.push(aux.join(" "));
            aux.clear();
            centinela = false;
        } else if centinela {
            aux.push(" ".to_string() + palabra);
        } else {
            nueva.push(palabra.clone());
        }
    }
    nueva
}

/// The values of the text of a list, computed with the standard library.
fn lista_esperada(linea: &str) -> Vec<String> {
    let limpia = linea
        .trim()
        .trim_start_matches('(')
        .trim_start_matches('\'')
        .trim_end_matches(';')
        .trim_end_matches(',')
        .trim_end_matches('\'')
        .trim_end_matches(')');
    let elementos: Vec<String> = limpia.split(',').map(|s| s.trim().to_string()).collect();
    palabras_esperadas(&elementos)
}

#[test]
fn tokens_agree_with_a_reading_by_the_standard_library() {
    let alfabeto = ['a', 'b', '1', ' ', ' ', '\t', '\u{a0}', '\'', '(', ')', '=', '<', '>', ',', 'é'];
    let mut fuente = Fuente(7);
    for _ in 0..5000 {
        let s = fuente.texto(&alfabeto, 16);
        assert_eq!(adaptar_where(&s), tokens_esperados(&s), "{:?}", s);
    }
}

#[test]
fn joined_words_agree_with_a_reading_by_the_standard_library() {
    let alfabeto = ['a', '\'', ' ', 'b'];
    let mut fuente = Fuente(8);
    for _ in 0..5000 {
        let cuantas = fuente.siguiente() % 6;
        let palabras: Vec<String> = (0..cuantas).map(|_| fuente.texto(&alfabeto, 3)).collect();
        assert_eq!(juntar_words(palabras.clone()), palabras_esperadas(&palabras), "{:?}", palabras);
    }
}

#[test]
fn unwrapped_lists_agree_with_a_reading_by_the_standard_library() {
    let alfabeto = ['a', '1', '\'', ' ', '(', ')', ',', ';', '\t'];
    let mut fuente = Fuente(9);
    for _ in 0..5000 {
        let s = fuente.texto(&alfabeto, 12);
        assert_eq!(limpiar_lista(&s), lista_esperada(&s), "{:?}", s);
    }
}

/// The characters of a clause without the white space outside quotes.
fn sin_blancos_sueltos(query: &str) -> String {
    let mut en_comillas = false;
    let mut r = String::new();
    for c in query.chars() {
        if c == '\'' {
            en_comillas = !en_comillas;
        }
        if en_comillas || c == '\'' || !c.is_whitespace() {
            r.push(c);
        }
    }
    r
}

#[test]
fn tokens_keep_every_character_but_loose_white_space() {
    let alfabeto = ['a', 'b', '1', ' ', ' ', '\t', '\'', '(', ')', '=', '<', '>', 'é'];
    let mut fuente = Fuente(10);
    for _ in 0..5000 {
        let s = fuente.texto(&alfabeto, 16);
        let tokens = adaptar_where(&s);
        assert!(tokens.iter().all(|t| !t.is_empty()), "{:?}", s);
        let sin_operadores = !s.contains(['=', '<', '>']);
        if sin_operadores {
            assert_eq!(tokens.concat(), sin_blancos_sueltos(&s), "{:?}", s);
        }
    }
}

#[test]
fn merging_comparisons_keeps_the_joined_text() {
    let palabras = ["a", "b", "=", ">=", "<", "(", ")", "AND", "==", "'x y'"];
    let mut fuente = Fuente(12);
    for _ in 0..5000 {
        let cuantas = fuente.siguiente() % 8;
        let tokens: Vec<String> = (0..cuantas)
            .map(|_| palabras[(fuente.siguiente() % palabras.len() as u64) as usize].to_string())
            .collect();
        let unidos = agrupar_condicionales(tokens.clone());
        assert_eq!(unidos.join(" "), tokens.join(" "), "{:?}", tokens);
        assert!(unidos.len() <= tokens.len());
    }
}

fn hojas(e: &Expresion, salida: &mut Vec<String>) {
    match e {
        Expresion::Not { derecha } => hojas(derecha, salida),
        Expresion::And { izquierda, derecha } | Expresion::Or { izquierda, derecha } => {
            hojas(izquierda, salida);
            hojas(derecha, salida);
        }
        Expresion::Operacion { condicional } => match condicional {
            Condicional::Mayor { miembro1, .. }
            | Condicional::MayorIgual { miembro1, .. }
            | Condicional::Menor { miembro1, .. }
            | Condicional::MenorIgual { miembro1, .. }
            | Condicional::Igual { miembro1, .. } => salida.push(miembro1.clone()),
        },
        _ => {}
    }
}

#[test]
fn a_compiled_clause_keeps_its_comparisons_in_order() {
    let palabras = ["NOT", "AND", "OR", "(", ")", "a = 1", "b > 2", "c <= 3"];
    let mut fuente = Fuente(13);
    let mut compiladas = 0;
    for _ in 0..20000 {
        let cuantas = 1 + fuente.siguiente() % 7;
        let tokens: Vec<String> = (0..cuantas)
            .map(|_| palabras[(fuente.siguiente() % palabras.len() as u64) as usize].to_string())
            .collect();
        if let Ok(expresion) = parsear_expresion(tokens.clone()) {
            let mut vistas = Vec::new();
            hojas(&expresion, &mut vistas);
            let esperadas: Vec<String> = tokens
                .iter()
                .filter(|t| t.contains(' '))
                .map(|t| t[..1].to_string())
                .collect();
            assert_eq!(vistas, esperadas, "{:?}", tokens);
            compiladas += 1;
        }
    }
    assert!(compiladas > 100);
}
