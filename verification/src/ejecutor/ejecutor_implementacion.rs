//! Running a command on the lines of a table, and what the four kinds of
//! command share: reading the text of a clause into tokens, the path and
//! the columns of a table, and the values of a list.

use crate::analizador::analizador_implementacion::{
    compilado, es_resultado, leer_operador, operador_de, parsear_expresion,
};
use crate::analizador::expresion::{Arbol, Expresion};
use crate::texto::{
    anexar, cadena, cadenas, caracteres, es_blanco, es_espacio, espacio, lema_vistas_push,
    par, partido, partir, quitar_finales, quitar_iniciales, quitar_sufijos, recortado, recortar,
    sin_prefijos, sin_sufijos, textos, unido, unir, vistas,
};
use crate::comandos::comandos_implementacion::{Comandos, Consulta};
use crate::ejecutor::ejecutor_delete::{delete_ejecutado, ejecutar_delete};
use crate::ejecutor::ejecutor_insert::{ejecutar_insert, insert_ejecutado};
use crate::ejecutor::ejecutor_select::{ejecutar_select, select_ejecutado};
use crate::ejecutor::ejecutor_update::{ejecutar_update, update_ejecutado};
use crate::errores::errores_implementacion::Errores;
use vstd::hash_map::StringHashMap;
use vstd::prelude::*;

verus! {

/// The tokens read so far and, when `token` is not empty, `token` after
/// them.
pub open spec fn con_token_cerrado(hechos: Seq<Seq<char>>, token: Seq<char>) -> Seq<Seq<char>> {
    if token.len() > 0 {
        hechos.push(token)
    } else {
        hechos
    }
}

/// The tokens of the clause `s` when it is read from position `i` on, with
/// `hechos` the tokens already closed, `token` the one in progress and
/// `en_comillas` telling whether a single quote is open.
///
/// A single quote opens or closes a quoted span and belongs to the token.
/// Inside a quoted span every character belongs to the token. Outside one,
/// white space closes the token; a parenthesis closes it and is a token by
/// itself; `>`, `<` or `=` closes it and is a token by itself, together with
/// an `=` that follows it directly; any other character belongs to the
/// token. The end of the clause closes the token.
pub open spec fn tokens_desde(
    s: Seq<char>,
    i: int,
    hechos: Seq<Seq<char>>,
    token: Seq<char>,
    en_comillas: bool,
) -> Seq<Seq<char>>
    decreases s.len() - i,
{
    if i < 0 || i >= s.len() {
        con_token_cerrado(hechos, token)
    } else {
        let c = s[i];
        if c == '\'' {
            tokens_desde(s, i + 1, hechos, token.push(c), !en_comillas)
        } else if en_comillas {
            tokens_desde(s, i + 1, hechos, token.push(c), true)
        } else if es_espacio(c) {
            tokens_desde(s, i + 1, con_token_cerrado(hechos, token), Seq::empty(), false)
        } else if c == '(' || c == ')' {
            tokens_desde(
                s,
                i + 1,
                con_token_cerrado(hechos, token).push(seq![c]),
                Seq::empty(),
                false,
            )
        } else if c == '>' || c == '<' || c == '=' {
            if i + 1 < s.len() && s[i + 1] == '=' {
                tokens_desde(
                    s,
                    i + 2,
                    con_token_cerrado(hechos, token).push(seq![c, '=']),
                    Seq::empty(),
                    false,
                )
            } else {
                tokens_desde(
                    s,
                    i + 1,
                    con_token_cerrado(hechos, token).push(seq![c]),
                    Seq::empty(),
                    false,
                )
            }
        } else {
            tokens_desde(s, i + 1, hechos, token.push(c), false)
        }
    }
}

/// The tokens of a clause.
pub open spec fn tokens_de(s: Seq<char>) -> Seq<Seq<char>> {
    tokens_desde(s, 0, Seq::empty(), Seq::empty(), false)
}

/// The tokens of a clause with each comparison made one token: wherever a
/// token is followed by an operator and one more token, the three become
/// one, joined by single spaces. Tokens are taken from left to right, and a
/// token that has gone into a comparison starts no other.
pub open spec fn condiciones_unidas(tokens: Seq<Seq<char>>) -> Seq<Seq<char>>
    decreases tokens.len(),
{
    if tokens.len() == 0 {
        Seq::empty()
    } else if tokens.len() > 2 && operador_de(tokens[1]) is Some {
        seq![tokens[0] + seq![' '] + tokens[1] + seq![' '] + tokens[2]] + condiciones_unidas(
            tokens.skip(3),
        )
    } else {
        seq![tokens[0]] + condiciones_unidas(tokens.drop_first())
    }
}

/// Closes the token in progress: adds it to `resultado` unless it is empty,
/// and leaves it empty.
fn cerrar_token(resultado: &mut Vec<Vec<char>>, token: &mut Vec<char>)
    ensures
        vistas(final(resultado)@) == con_token_cerrado(vistas(old(resultado)@), old(token)@),
        final(token)@ == Seq::<char>::empty(),
{
    if token.len() > 0 {
        let mut cerrado: Vec<char> = Vec::new();
        anexar(&mut cerrado, token);
        proof {
            lema_vistas_push(resultado@, cerrado);
            assert(cerrado@ =~= token@);
        }
        resultado.push(cerrado);
        token.clear();
    }
    assert(token@ =~= Seq::<char>::empty());
}

/// Makes one token of each comparison among `tokens`.
pub fn agrupar_condicionales(tokens: Vec<String>) -> (r: Vec<String>)
    ensures
        vistas(r@) == condiciones_unidas(vistas(tokens@)),
{
    let entrada = textos(&tokens);
    let ghost todos = vistas(entrada@);
    let mut resultado: Vec<Vec<char>> = Vec::new();
    let sep = espacio();
    let mut i: usize = 0;
    assert(todos.skip(0) =~= todos);
    assert(vistas(resultado@) + condiciones_unidas(todos) =~= condiciones_unidas(todos));
    while i < entrada.len()
        invariant
            i <= entrada.len(),
            todos == vistas(entrada@),
            sep@ == seq![' '],
            condiciones_unidas(todos) == vistas(resultado@) + condiciones_unidas(
                todos.skip(i as int),
            ),
        decreases entrada.len() - i,
    {
        let ghost resto = todos.skip(i as int);
        let ghost antes = vistas(resultado@);
        assert(resto[0] == entrada@[i as int]@);
        if entrada.len() - i > 2 && leer_operador(&entrada[i + 1]).is_some() {
            let mut condicional: Vec<char> = Vec::new();
            anexar(&mut condicional, &entrada[i]);
            anexar(&mut condicional, &sep);
            anexar(&mut condicional, &entrada[i + 1]);
            anexar(&mut condicional, &sep);
            anexar(&mut condicional, &entrada[i + 2]);
            proof {
                assert(resto[1] == entrada@[i + 1]@);
                assert(resto[2] == entrada@[i + 2]@);
                assert(condicional@ =~= resto[0] + seq![' '] + resto[1] + seq![' '] + resto[2]);
                assert(resto.skip(3) =~= todos.skip(i + 3));
                lema_vistas_push(resultado@, condicional);
                assert(antes + (seq![condicional@] + condiciones_unidas(todos.skip(i + 3)))
                    =~= antes.push(condicional@) + condiciones_unidas(todos.skip(i + 3)));
            }
            resultado.push(condicional);
            i += 3;
        } else {
            let mut suelto: Vec<char> = Vec::new();
            anexar(&mut suelto, &entrada[i]);
            proof {
                if i + 2 < entrada.len() {
                    assert(resto[1] == entrada@[i + 1]@);
                }
                assert(suelto@ =~= resto[0]);
                assert(resto.drop_first() =~= todos.skip(i + 1));
                lema_vistas_push(resultado@, suelto);
                assert(antes + (seq![suelto@] + condiciones_unidas(todos.skip(i + 1)))
                    =~= antes.push(suelto@) + condiciones_unidas(todos.skip(i + 1)));
            }
            resultado.push(suelto);
            i += 1;
        }
    }
    assert(vistas(resultado@) + condiciones_unidas(todos.skip(i as int)) =~= vistas(resultado@));
    cadenas(&resultado)
}

/// Parts a clause into its tokens and makes one token of each comparison.
pub fn agrupar_expresiones(query: &str) -> (r: Vec<String>)
    ensures
        vistas(r@) == condiciones_unidas(tokens_de(query@)),
{
    let mut resultado: Vec<Vec<char>> = Vec::new();
    let mut token: Vec<char> = Vec::new();
    let mut en_comillas = false;
    let chars = caracteres(query);
    let mut i: usize = 0;
    assert(vistas(resultado@) =~= Seq::<Seq<char>>::empty());
    assert(token@ =~= Seq::<char>::empty());
    while i < chars.len()
        invariant
            i <= chars.len(),
            chars@ == query@,
            tokens_de(query@) == tokens_desde(
                chars@,
                i as int,
                vistas(resultado@),
                token@,
                en_comillas,
            ),
        decreases chars.len() - i,
    {
        let c: char = chars[i];
        if c == '\'' {
            en_comillas = !en_comillas;
            token.push(c);
        } else if en_comillas {
            token.push(c);
        } else if es_blanco(c) {
            cerrar_token(&mut resultado, &mut token);
        } else if c == '(' || c == ')' {
            cerrar_token(&mut resultado, &mut token);
            let mut suelto: Vec<char> = Vec::new();
            suelto.push(c);
            proof {
                assert(suelto@ =~= seq![c]);
                lema_vistas_push(resultado@, suelto);
            }
            resultado.push(suelto);
        } else if c == '>' || c == '<' || c == '=' {
            cerrar_token(&mut resultado, &mut token);
            let mut operador: Vec<char> = Vec::new();
            operador.push(c);
            if i + 1 < chars.len() && chars[i + 1] == '=' {
                operador.push(chars[i + 1]);
                i += 1;
                assert(operador@ =~= seq![c, '=']);
            } else {
                assert(operador@ =~= seq![c]);
            }
            proof {
                lema_vistas_push(resultado@, operador);
            }
            resultado.push(operador);
        } else {
            token.push(c);
        }
        i += 1;
    }
    cerrar_token(&mut resultado, &mut token);
    agrupar_condicionales(cadenas(&resultado))
}

/// Turns the text of a clause into the tokens that `parsear_expresion`
/// compiles: connectives, parentheses and whole comparisons.
pub fn adaptar_where(query: &str) -> (r: Vec<String>)
    ensures
        vistas(r@) == condiciones_unidas(tokens_de(query@)),
{
    agrupar_expresiones(query)
}

/// The path of the file that holds a table: the directory, a slash, the
/// name of the table and the ending `.csv`.
pub open spec fn ruta_de(path: Seq<char>, nombre_archivo: Seq<char>) -> Seq<char> {
    path + seq!['/'] + nombre_archivo + seq!['.', 'c', 's', 'v']
}

/// Gives the path of the file that holds the table `nombre_archivo` in the
/// directory `path`.
pub fn crear_ruta(path: &String, nombre_archivo: &String) -> (r: String)
    ensures
        r@ == ruta_de(path@, nombre_archivo@),
{
    let mut ruta: Vec<char> = caracteres(path.as_str());
    ruta.push('/');
    anexar(&mut ruta, &caracteres(nombre_archivo.as_str()));
    ruta.push('.');
    ruta.push('c');
    ruta.push('s');
    ruta.push('v');
    assert(ruta@ =~= ruta_de(path@, nombre_archivo@));
    cadena(&ruta)
}

/// Whether `indices` maps each name among `columnas`, and no other text, to
/// the last position at which the name stands.
pub open spec fn es_indice_de(indices: Map<Seq<char>, usize>, columnas: Seq<Seq<char>>) -> bool {
    &&& forall|k: Seq<char>| #[trigger] indices.contains_key(k) <==> columnas.contains(k)
    &&& forall|k: Seq<char>| #[trigger]
        indices.contains_key(k) ==> {
            &&& indices[k] < columnas.len()
            &&& columnas[indices[k] as int] == k
            &&& forall|j: int| indices[k] < j < columnas.len() ==> columnas[j] != k
        }
}

/// The last position at which the name `k` stands among `columnas`.
pub open spec fn ultima_posicion(columnas: Seq<Seq<char>>, k: Seq<char>) -> int {
    choose|i: int|
        0 <= i < columnas.len() && columnas[i] == k && forall|j: int|
            i < j < columnas.len() ==> columnas[j] != k
}

/// The map from each name among `columnas` to the last position at which it
/// stands.
pub open spec fn indices_de(columnas: Seq<Seq<char>>) -> Map<Seq<char>, usize> {
    Map::new(
        |k: Seq<char>| columnas.contains(k),
        |k: Seq<char>| ultima_posicion(columnas, k) as usize,
    )
}

/// There is one map only from the names among `columnas` to their last
/// positions.
pub proof fn lema_indice_unico(indices: Map<Seq<char>, usize>, columnas: Seq<Seq<char>>)
    requires
        es_indice_de(indices, columnas),
    ensures
        indices == indices_de(columnas),
{
    assert forall|k: Seq<char>| #[trigger] indices.contains_key(k) implies indices[k]
        == indices_de(columnas)[k] by {
        let i = indices[k] as int;
        let u = ultima_posicion(columnas, k);
        assert(0 <= i < columnas.len() && columnas[i] == k && forall|j: int|
            i < j < columnas.len() ==> columnas[j] != k);
        assert(0 <= u < columnas.len() && columnas[u] == k && forall|j: int|
            u < j < columnas.len() ==> columnas[j] != k);
        if i < u {
            assert(columnas[u] != k);
        }
        if u < i {
            assert(columnas[i] != k);
        }
    }
    assert(indices =~= indices_de(columnas));
}

/// Maps each column name of a header to its position in a row. Where a name
/// stands twice, the later position counts.
pub fn obtener_indices_columnas(columnas: &[String]) -> (r: StringHashMap<usize>)
    ensures
        es_indice_de(r@, vistas(columnas@)),
        r@ == indices_de(vistas(columnas@)),
{
    let mut resultado: StringHashMap<usize> = StringHashMap::new();
    let ghost nombres = vistas(columnas@);
    let mut i: usize = 0;
    while i < columnas.len()
        invariant
            i <= columnas.len(),
            nombres == vistas(columnas@),
            es_indice_de(resultado@, nombres.take(i as int)),
        decreases columnas.len() - i,
    {
        let ghost antes = resultado@;
        let ghost vistos = nombres.take(i as int);
        let ghost ahora = nombres.take(i + 1);
        let ghost nombre = columnas@[i as int]@;
        resultado.insert(columnas[i].clone(), i);
        proof {
            assert(ahora[i as int] == nombre);
            assert forall|k: Seq<char>| #[trigger]
                resultado@.contains_key(k) <==> ahora.contains(k) by {
                if ahora.contains(k) {
                    let j = choose|j: int| 0 <= j < ahora.len() && ahora[j] == k;
                    if j < i {
                        assert(vistos[j] == k);
                        assert(antes.contains_key(k));
                    }
                }
                if resultado@.contains_key(k) && k != nombre {
                    assert(antes.contains_key(k));
                    let j = choose|j: int| 0 <= j < vistos.len() && vistos[j] == k;
                    assert(ahora[j] == k);
                }
            }
            assert forall|k: Seq<char>| #[trigger] resultado@.contains_key(k) implies {
                &&& resultado@[k] < ahora.len()
                &&& ahora[resultado@[k] as int] == k
                &&& forall|j: int| resultado@[k] < j < ahora.len() ==> ahora[j] != k
            } by {
                if k != nombre {
                    assert(antes.contains_key(k));
                    assert(vistos[antes[k] as int] == k);
                    assert forall|j: int| antes[k] < j < ahora.len() implies ahora[j] != k by {
                        if j < i {
                            assert(vistos[j] != k);
                        }
                    }
                }
            }
        }
        i += 1;
    }
    assert(nombres.take(i as int) =~= nombres);
    proof {
        lema_indice_unico(resultado@, nombres);
    }
    resultado
}

/// The values that a list of words stands for when it is read from position
/// `i` on, with `nueva` the values already made, `aux` the words of a quoted
/// value in progress and `centinela` telling whether one is in progress.
///
/// A word that starts and ends with a single quote is a value, without the
/// quotes at its two ends. A word that only starts with one opens a quoted
/// value. A word that only ends with one closes it: the words gathered, it
/// among them, make one value, joined by single spaces. Any other word goes
/// to the value in progress, with a space before it, or is a value by itself
/// when none is in progress. A quoted value that is never closed is dropped.
pub open spec fn palabras_juntas_desde(
    v: Seq<Seq<char>>,
    i: int,
    nueva: Seq<Seq<char>>,
    aux: Seq<Seq<char>>,
    centinela: bool,
) -> Seq<Seq<char>>
    decreases v.len() - i,
{
    if i < 0 || i >= v.len() {
        nueva
    } else {
        let palabra = v[i];
        let abre = palabra.len() > 0 && palabra.first() == '\'';
        let cierra = palabra.len() > 0 && palabra.last() == '\'';
        if abre && cierra {
            palabras_juntas_desde(
                v,
                i + 1,
                nueva.push(sin_sufijos(sin_prefijos(palabra, seq!['\'']), seq!['\''])),
                aux,
                centinela,
            )
        } else if abre {
            palabras_juntas_desde(v, i + 1, nueva, aux.push(palabra), true)
        } else if cierra {
            palabras_juntas_desde(
                v,
                i + 1,
                nueva.push(unido(aux.push(palabra), seq![' '])),
                Seq::empty(),
                false,
            )
        } else if centinela {
            palabras_juntas_desde(v, i + 1, nueva, aux.push(seq![' '] + palabra), true)
        } else {
            palabras_juntas_desde(v, i + 1, nueva.push(palabra), aux, false)
        }
    }
}

/// The values that a list of words stands for.
pub open spec fn palabras_juntas(v: Seq<Seq<char>>) -> Seq<Seq<char>> {
    palabras_juntas_desde(v, 0, Seq::empty(), Seq::empty(), false)
}

/// Makes one value of the words of each quoted value in a list of words.
pub fn juntar_words(vec: Vec<String>) -> (r: Vec<String>)
    ensures
        vistas(r@) == palabras_juntas(vistas(vec@)),
{
    let entrada = textos(&vec);
    let ghost todas = vistas(entrada@);
    let mut nueva: Vec<Vec<char>> = Vec::new();
    let mut aux: Vec<Vec<char>> = Vec::new();
    let mut centinela = false;
    let sep = espacio();
    let mut i: usize = 0;
    assert(vistas(nueva@) =~= Seq::empty());
    assert(vistas(aux@) =~= Seq::empty());
    while i < entrada.len()
        invariant
            i <= entrada.len(),
            todas == vistas(entrada@),
            sep@ == seq![' '],
            palabras_juntas(todas) == palabras_juntas_desde(
                todas,
                i as int,
                vistas(nueva@),
                vistas(aux@),
                centinela,
            ),
        decreases entrada.len() - i,
    {
        let palabra = &entrada[i];
        assert(todas[i as int] == palabra@);
        let abre = palabra.len() > 0 && palabra[0] == '\'';
        let cierra = palabra.len() > 0 && palabra[palabra.len() - 1] == '\'';
        if abre && cierra {
            let valor = quitar_finales(&quitar_iniciales(palabra, '\''), '\'');
            proof {
                lema_vistas_push(nueva@, valor);
            }
            nueva.push(valor);
        } else if abre {
            let mut copia: Vec<char> = Vec::new();
            anexar(&mut copia, palabra);
            proof {
                assert(copia@ =~= palabra@);
                lema_vistas_push(aux@, copia);
            }
            aux.push(copia);
            centinela = true;
        } else if cierra {
            let mut copia: Vec<char> = Vec::new();
            anexar(&mut copia, palabra);
            proof {
                assert(copia@ =~= palabra@);
                lema_vistas_push(aux@, copia);
            }
            aux.push(copia);
            let valor = unir(&aux, &sep);
            proof {
                lema_vistas_push(nueva@, valor);
            }
            nueva.push(valor);
            aux = Vec::new();
            assert(vistas(aux@) =~= Seq::empty());
            centinela = false;
        } else if centinela {
            let mut copia: Vec<char> = espacio();
            anexar(&mut copia, palabra);
            proof {
                lema_vistas_push(aux@, copia);
            }
            aux.push(copia);
        } else {
            let mut copia: Vec<char> = Vec::new();
            anexar(&mut copia, palabra);
            proof {
                assert(copia@ =~= palabra@);
                lema_vistas_push(nueva@, copia);
            }
            nueva.push(copia);
        }
        i += 1;
    }
    cadenas(&nueva)
}

/// The text of a value or of a list of values without what wraps it: the
/// white space around it, then the opening parentheses and the single quotes
/// at its start, then the semicolons, the commas, the single quotes and the
/// closing parentheses at its end, in that order.
pub open spec fn desenvuelto(linea: Seq<char>) -> Seq<char> {
    let a = sin_prefijos(sin_prefijos(recortado(linea), seq!['(']), seq!['\'']);
    let b = sin_sufijos(sin_sufijos(a, seq![';']), seq![',']);
    sin_sufijos(sin_sufijos(b, seq!['\'']), seq![')'])
}

/// The values that the text of a list stands for: the text is unwrapped and
/// parted at its commas, each part loses the white space around it, and the
/// parts of a quoted value are made one.
pub open spec fn lista_limpia(linea: Seq<char>) -> Seq<Seq<char>> {
    let partes = partido(desenvuelto(linea), ',');
    palabras_juntas(Seq::new(partes.len(), |i: int| recortado(partes[i])))
}

/// Reads the values that the text of a list stands for.
pub fn limpiar_lista(linea: &str) -> (r: Vec<String>)
    ensures
        vistas(r@) == lista_limpia(linea@),
{
    let recortada = recortar(&caracteres(linea));
    let a = quitar_iniciales(&quitar_iniciales(&recortada, '('), '\'');
    let b = quitar_finales(&quitar_finales(&a, ';'), ',');
    let linea_limpia = quitar_finales(&quitar_finales(&b, '\''), ')');
    let partes = partir(&linea_limpia, ',');
    let mut elementos: Vec<String> = Vec::new();
    let mut i: usize = 0;
    while i < partes.len()
        invariant
            i <= partes.len(),
            elementos.len() == i,
            forall|k: int| 0 <= k < i ==> (#[trigger] elementos@[k])@ == recortado(partes@[k]@),
        decreases partes.len() - i,
    {
        elementos.push(cadena(&recortar(&partes[i])));
        i += 1;
    }
    proof {
        let p = partido(desenvuelto(linea@), ',');
        assert(vistas(elementos@) =~= Seq::new(p.len(), |i: int| recortado(p[i]))) by {
            assert forall|k: int| 0 <= k < partes.len() implies vistas(elementos@)[k] == recortado(
                p[k],
            ) by {
                assert(vistas(partes@)[k] == partes@[k]@);
            }
        }
    }
    juntar_words(elementos)
}

/// What is to be done with the file of a table once a query has run.
#[derive(Debug, PartialEq, Eq)]
pub enum Efecto {
    /// These lines are to be added at the end of the file.
    Agregar(Vec<String>),
    /// These lines are to take the place of those of the file.
    Reescribir(Vec<String>),
    /// The file stays as it is, and these lines are to be shown.
    Mostrar(Vec<String>),
}

/// What an `Efecto` stands for: the same over texts.
pub enum Cambio {
    Agregar(Seq<Seq<char>>),
    Reescribir(Seq<Seq<char>>),
    Mostrar(Seq<Seq<char>>),
}

impl View for Efecto {
    type V = Cambio;

    open spec fn view(&self) -> Cambio {
        match self {
            Efecto::Agregar(lineas) => Cambio::Agregar(vistas(lineas@)),
            Efecto::Reescribir(lineas) => Cambio::Reescribir(vistas(lineas@)),
            Efecto::Mostrar(lineas) => Cambio::Mostrar(vistas(lineas@)),
        }
    }
}

/// Whether an effect is the outcome `m` of running a query: the same error,
/// or an effect with that view.
pub open spec fn es_efecto(r: Result<Efecto, Errores>, m: Result<Cambio, Errores>) -> bool {
    match m {
        Ok(c) => r is Ok && r->Ok_0@ == c,
        Err(e) => r == Err::<Efecto, Errores>(e),
    }
}

/// What was read from the file of a table: its lines, or nothing when the
/// file could not be read.
pub open spec fn lectura(tabla: Option<&Vec<String>>) -> Option<Seq<Seq<char>>> {
    match tabla {
        Some(lineas) => Some(vistas(lineas@)),
        None => None,
    }
}

/// The text of a clause without the semicolons at its end.
pub open spec fn clausula_limpia(clausula: Seq<char>) -> Seq<char> {
    sin_sufijos(sin_sufijos(clausula, seq![';']), seq![';', ' '])
}

/// The expression that the text of a clause compiles into: the semicolons at
/// its end are taken off, the rest is parted into tokens, and the tokens are
/// compiled. Every failure is a syntax error.
pub open spec fn where_compilado(clausula: Seq<char>) -> Result<Arbol, Errores> {
    match compilado(condiciones_unidas(tokens_de(clausula_limpia(clausula)))) {
        Ok(a) => Ok(a),
        Err(_) => Err(Errores::InvalidSyntax),
    }
}

/// Compiles the text of a clause.
pub fn compilar_where(clausula_where: &str) -> (r: Result<Expresion, Errores>)
    ensures
        es_resultado(r, where_compilado(clausula_where@)),
{
    let limpia = quitar_sufijos(&quitar_finales(&caracteres(clausula_where), ';'), &par(';', ' '));
    let clausula_where_limpia: Vec<String> = adaptar_where(cadena(&limpia).as_str());
    match parsear_expresion(clausula_where_limpia) {
        Ok(a) => Ok(a),
        Err(_) => Err(Errores::InvalidSyntax),
    }
}

/// The names of the columns of a table: the parts between commas of the
/// first line of its file.
pub open spec fn encabezado(lineas: Seq<Seq<char>>) -> Seq<Seq<char>> {
    partido(lineas[0], ',')
}

/// Reads the names of the columns from the first line of the file of a
/// table.
pub fn leer_encabezado(lineas: &Vec<String>) -> (r: Vec<String>)
    requires
        lineas.len() > 0,
    ensures
        vistas(r@) == encabezado(vistas(lineas@)),
{
    assert(vistas(lineas@)[0] == lineas@[0]@);
    cadenas(&partir(&caracteres(lineas[0].as_str()), ','))
}

/// What running a query does to its table, given the lines of the file of
/// the table or nothing when the file could not be read.
pub open spec fn comando_ejecutado(c: Consulta, tabla: Option<Seq<Seq<char>>>) -> Result<
    Cambio,
    Errores,
> {
    match c {
        Consulta::Insert { .. } => insert_ejecutado(c, tabla),
        Consulta::Update { .. } => update_ejecutado(c, tabla),
        Consulta::Delete { .. } => delete_ejecutado(c, tabla),
        Consulta::Select { .. } => select_ejecutado(c, tabla),
    }
}

/// Runs a query on its table. `tabla` holds the lines of the file of the
/// table, which is the one that `crear_ruta` names, or nothing when that
/// file could not be read. The outcome tells what to do with the file, or to
/// show.
pub fn ejecutar_comando(comando: Comandos, tabla: Option<&Vec<String>>) -> (r: Result<
    Efecto,
    Errores,
>)
    ensures
        es_efecto(r, comando_ejecutado(comando@, lectura(tabla))),
{
    match &comando {
        Comandos::Insert { tabla: _, into: _, valores: _ } => ejecutar_insert(&comando, tabla),
        Comandos::Update { tabla: _, clausula_set: _, clausula_where: _ } => ejecutar_update(
            &comando,
            tabla,
        ),
        Comandos::Delete { tabla: _, clausula_where: _ } => ejecutar_delete(&comando, tabla),
        Comandos::Select { campos: _, tabla: _, clausula_where: _, clausula_order: _ } => {
            ejecutar_select(&comando, tabla)
        },
    }
}

} // verus!
