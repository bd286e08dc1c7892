use sql_csv::texto::{
    buscar, cadena, cadenas, caracteres, coincide, contiene, es_blanco, es_menor, iguales,
    partir, partir_espacios, quitar_finales, quitar_iniciales, quitar_prefijos, quitar_sufijos,
    recortar, recortar_caracteres, subcadena, textos, unir, unir_tramo,
};

/// A small deterministic source of test texts.
struct Fuente(u64);

impl Fuente {
    fn siguiente(&mut self) -> u64 {
        self.0 = self.0.wrapping_mul(6364136223846793005).wrapping_add(1442695040888963407);
        self.0 >> 33
    }

    fn texto(&mut self, alfabeto: &[char], largo_maximo: u64) -> String {
        let largo = self.siguiente() % (largo_maximo + 1);
        (0..largo).map(|_| alfabeto[(self.siguiente() % alfabeto.len() as u64) as usize]).collect()
    }
}

const ALFABETO: [char; 22] = [
    'a', 'b', 'Z', '0', '9', ' ', ' ', '\t', '\n', '\u{a0}', '\u{2003}', '\u{3000}', ',', ';', '\'',
    '(', ')', '=', '<', 'é', '\u{ffff}', '\u{10000}',
];

fn cs(s: &str) -> Vec<char> {
    s.chars().collect()
}

fn st(v: &Vec<char>) -> String {
    v.iter().collect()
}

fn sts(v: &Vec<Vec<char>>) -> Vec<String> {
    v.iter().map(st).collect()
}

#[test]
fn strings_and_characters_convert_both_ways() {
    for s in ["", "a", "hola mundo", "ñandú 'x' \u{10000}\u{ffff}", "\n\t "] {
        assert_eq!(caracteres(s), cs(s));
        assert_eq!(cadena(&cs(s)), s);
    }
    let lista = vec!["a".to_string(), "".to_string(), "bé c".to_string()];
    assert_eq!(textos(&lista), vec![cs("a"), cs(""), cs("bé c")]);
    assert_eq!(cadenas(&textos(&lista)), lista);
}

#[test]
fn white_space_is_the_unicode_property() {
    for n in 0..=0x10ffffu32 {
        if let Some(c) = char::from_u32(n) {
            assert_eq!(es_blanco(c), c.is_whitespace(), "U+{:04X}", n);
        }
    }
}

#[test]
fn trimming_agrees_with_the_standard_library() {
    let mut fuente = Fuente(1);
    for _ in 0..3000 {
        let s = fuente.texto(&ALFABETO, 12);
        assert_eq!(st(&recortar(&cs(&s))), s.trim(), "{:?}", s);
    }
    assert_eq!(st(&recortar(&cs("  a b  "))), "a b");
    assert_eq!(st(&recortar(&cs(" \t\n"))), "");
    assert_eq!(st(&recortar(&cs(""))), "");
}

#[test]
fn trimming_characters_agrees_with_the_standard_library() {
    let mut fuente = Fuente(2);
    let fuera = vec!['(', ')', ' '];
    for _ in 0..3000 {
        let s = fuente.texto(&['(', ')', ' ', 'a', ','], 10);
        assert_eq!(
            st(&recortar_caracteres(&cs(&s), &fuera)),
            s.trim_matches(&['(', ')', ' '][..]),
            "{:?}",
            s
        );
    }
    assert_eq!(st(&recortar_caracteres(&cs("( (a) b) "), &fuera)), "a) b");
    assert_eq!(st(&recortar_caracteres(&cs("abc"), &Vec::new())), "abc");
}

#[test]
fn taking_patterns_off_agrees_with_the_standard_library() {
    let mut fuente = Fuente(3);
    let alfabeto = [' ', '\'', ';', 'a'];
    for _ in 0..3000 {
        let s = fuente.texto(&alfabeto, 10);
        let mut pat = fuente.texto(&alfabeto, 2);
        if pat.is_empty() {
            pat.push(';');
        }
        assert_eq!(
            st(&quitar_prefijos(&cs(&s), &cs(&pat))),
            s.trim_start_matches(pat.as_str()),
            "{:?} {:?}",
            s,
            pat
        );
        assert_eq!(
            st(&quitar_sufijos(&cs(&s), &cs(&pat))),
            s.trim_end_matches(pat.as_str()),
            "{:?} {:?}",
            s,
            pat
        );
        assert_eq!(st(&quitar_iniciales(&cs(&s), '\'')), s.trim_start_matches('\''));
        assert_eq!(st(&quitar_finales(&cs(&s), ';')), s.trim_end_matches(';'));
    }
    assert_eq!(st(&quitar_prefijos(&cs("ababa"), &cs("ab"))), "a");
    assert_eq!(st(&quitar_sufijos(&cs("ababa"), &cs("ba"))), "a");
    assert_eq!(st(&quitar_sufijos(&cs("x; ; "), &cs("; "))), "x");
    assert_eq!(st(&quitar_prefijos(&cs("abc"), &cs(""))), "abc");
    assert_eq!(st(&quitar_sufijos(&cs("abc"), &cs(""))), "abc");
    assert_eq!(st(&quitar_iniciales(&cs("'''"), '\'')), "");
}

#[test]
fn parting_agrees_with_the_standard_library() {
    let mut fuente = Fuente(4);
    for _ in 0..3000 {
        let s = fuente.texto(&ALFABETO, 14);
        let esperado: Vec<String> = s.split(',').map(|p| p.to_string()).collect();
        assert_eq!(sts(&partir(&cs(&s), ',')), esperado, "{:?}", s);
        let esperado: Vec<String> = s.split_whitespace().map(|p| p.to_string()).collect();
        assert_eq!(sts(&partir_espacios(&cs(&s))), esperado, "{:?}", s);
    }
    assert_eq!(sts(&partir(&cs(""), ',')), vec!["".to_string()]);
    assert_eq!(sts(&partir(&cs(","), ',')), vec!["".to_string(), "".to_string()]);
    assert_eq!(sts(&partir(&cs("a,,b"), ',')), vec!["a", "", "b"]);
    assert_eq!(sts(&partir_espacios(&cs(""))), Vec::<String>::new());
    assert_eq!(sts(&partir_espacios(&cs(" a\u{3000}b  "))), vec!["a", "b"]);
}

#[test]
fn joining_agrees_with_the_standard_library() {
    let mut fuente = Fuente(5);
    for _ in 0..2000 {
        let cuantas = fuente.siguiente() % 5;
        let partes: Vec<String> = (0..cuantas).map(|_| fuente.texto(&ALFABETO, 4)).collect();
        let sep = fuente.texto(&[' ', ','], 2);
        let v: Vec<Vec<char>> = partes.iter().map(|p| cs(p)).collect();
        assert_eq!(st(&unir(&v, &cs(&sep))), partes.join(&sep));
        let desde = (fuente.siguiente() % (cuantas + 1)) as usize;
        let hasta = desde + (fuente.siguiente() % (cuantas + 1 - desde as u64)) as usize;
        assert_eq!(st(&unir_tramo(&v, desde, hasta, &cs(&sep))), partes[desde..hasta].join(&sep));
    }
    assert_eq!(st(&unir(&vec![cs("a"), cs(""), cs("b")], &cs(", "))), "a, , b");
    assert_eq!(st(&unir(&Vec::new(), &cs(","))), "");
    let ida_y_vuelta = "x,,y z,";
    assert_eq!(st(&unir(&partir(&cs(ida_y_vuelta), ','), &cs(","))), ida_y_vuelta);
}

#[test]
fn order_agrees_with_the_standard_library() {
    let mut fuente = Fuente(6);
    let alfabeto = ['a', 'b', 'Z', '0', '9', 'é', '\u{7f}', '\u{80}', '\u{7ff}', '\u{800}',
        '\u{d7ff}', '\u{e000}', '\u{ffff}', '\u{10000}', '\u{10ffff}'];
    for _ in 0..5000 {
        let a = fuente.texto(&alfabeto, 4);
        let b = fuente.texto(&alfabeto, 4);
        assert_eq!(es_menor(&cs(&a), &cs(&b)), a < b, "{:?} {:?}", a, b);
        assert_eq!(iguales(&cs(&a), &cs(&b)), a == b, "{:?} {:?}", a, b);
    }
    assert!(es_menor(&cs("10"), &cs("5")));
    assert!(es_menor(&cs(""), &cs("a")));
    assert!(!es_menor(&cs("a"), &cs("")));
    assert!(!es_menor(&cs("a"), &cs("a")));
    assert!(es_menor(&cs("a"), &cs("aa")));
}

#[test]
fn searching_and_slicing() {
    let lista = vec![cs("a"), cs("b"), cs("a"), cs("")];
    assert_eq!(buscar(&lista, &cs("a")), Some(0));
    assert_eq!(buscar(&lista, &cs("b")), Some(1));
    assert_eq!(buscar(&lista, &cs("")), Some(3));
    assert_eq!(buscar(&lista, &cs("c")), None);
    assert_eq!(buscar(&Vec::new(), &cs("a")), None);
    assert_eq!(st(&subcadena(&cs("abcdef"), 2, 4)), "cd");
    assert_eq!(st(&subcadena(&cs("abcdef"), 3, 3)), "");
    assert!(coincide(&cs("abcab"), 3, &cs("ab")));
    assert!(!coincide(&cs("abcab"), 4, &cs("ab")));
    assert!(coincide(&cs("abc"), 3, &cs("")));
    assert!(contiene(&cs("abc"), 'c'));
    assert!(!contiene(&cs("abc"), 'd'));
}
