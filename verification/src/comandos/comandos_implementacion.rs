//! Parsing the text of a query into the command that it stands for.

use crate::errores::errores_implementacion::Errores;
use crate::texto::{
    buscar, posicion_de, cadena, cadenas_tramo, caracteres, espacio, filtrado, iguales,
    lema_vistas_push, mayusculas_de_cada, palabras, par, partido, partir, partir_espacios,
    pasar_cada_a_mayusculas, quitar_finales, quitar_iniciales, quitar_sufijos, recortado, recortar,
    sin_prefijos, sin_sufijos, unido, unir_tramo, vistas,
};
use vstd::prelude::*;

verus! {

/// The queries that the engine runs.
#[derive(Debug, PartialEq, Eq)]
pub enum Comandos {
    /// Adds rows to a table.
    Insert { tabla: String, into: Vec<String>, valores: Vec<String> },
    /// Changes fields of the rows that meet a clause.
    Update { tabla: String, clausula_set: String, clausula_where: String },
    /// Removes the rows that meet a clause.
    Delete { tabla: String, clausula_where: String },
    /// Shows fields of the rows that meet a clause.
    Select {
        campos: Vec<String>,
        tabla: String,
        clausula_where: String,
        clausula_order: Vec<String>,
    },
}

/// What a `Comandos` stands for: the same query over texts.
pub enum Consulta {
    Insert { tabla: Seq<char>, into: Seq<Seq<char>>, valores: Seq<Seq<char>> },
    Update { tabla: Seq<char>, clausula_set: Seq<char>, clausula_where: Seq<char> },
    Delete { tabla: Seq<char>, clausula_where: Seq<char> },
    Select {
        campos: Seq<Seq<char>>,
        tabla: Seq<char>,
        clausula_where: Seq<char>,
        clausula_order: Seq<Seq<char>>,
    },
}

impl View for Comandos {
    type V = Consulta;

    open spec fn view(&self) -> Consulta {
        match self {
            Comandos::Insert { tabla, into, valores } => Consulta::Insert {
                tabla: tabla@,
                into: vistas(into@),
                valores: vistas(valores@),
            },
            Comandos::Update { tabla, clausula_set, clausula_where } => Consulta::Update {
                tabla: tabla@,
                clausula_set: clausula_set@,
                clausula_where: clausula_where@,
            },
            Comandos::Delete { tabla, clausula_where } => Consulta::Delete {
                tabla: tabla@,
                clausula_where: clausula_where@,
            },
            Comandos::Select { campos, tabla, clausula_where, clausula_order } => Consulta::Select {
                campos: vistas(campos@),
                tabla: tabla@,
                clausula_where: clausula_where@,
                clausula_order: vistas(clausula_order@),
            },
        }
    }
}

/// Whether a command is the outcome `m` of parsing: the same error, or a
/// command with that view.
pub open spec fn es_comando(r: Result<Comandos, Errores>, m: Result<Consulta, Errores>) -> bool {
    match m {
        Ok(c) => r is Ok && r->Ok_0@ == c,
        Err(e) => r == Err::<Comandos, Errores>(e),
    }
}

/// The first position at which `palabra` stands in `mayus`.
pub open spec fn indice_de(mayus: Seq<Seq<char>>, palabra: Seq<char>) -> Option<int> {
    posicion_de(mayus, palabra)
}

/// Finds the first position at which `palabra` stands in `mayus`.
pub fn obtener_indice(mayus: &Vec<Vec<char>>, palabra: &str) -> (r: Option<usize>)
    ensures
        match indice_de(vistas(mayus@), palabra@) {
            Some(k) => r == Some(k as usize) && 0 <= k < mayus.len(),
            None => r is None,
        },
{
    buscar(mayus, &caracteres(palabra))
}

/// The names of the columns that a bracketed list holds: the tokens of the
/// list are joined by single spaces, the parentheses at the two ends are
/// taken off, and each part between commas is a name, without the white
/// space around it.
pub open spec fn columnas_de(tokens: Seq<Seq<char>>) -> Seq<Seq<char>> {
    let junto = unido(tokens, seq![' ']);
    let limpio = sin_sufijos(sin_prefijos(junto, seq!['(']), seq![')']);
    let partes = partido(limpio, ',');
    Seq::new(partes.len(), |i: int| recortado(partes[i]))
}

/// What an `INSERT` query says. `INTO` must be the second token, and
/// `VALUES` must leave room for the table and a list of columns before it.
pub open spec fn insert_de(token: Seq<Seq<char>>, mayus: Seq<Seq<char>>) -> Result<
    Consulta,
    Errores,
> {
    match (indice_de(mayus, "INTO"@), indice_de(mayus, "VALUES"@)) {
        (Some(i), Some(v)) => if i != 1 || v <= i + 2 {
            Err(Errores::InvalidSyntax)
        } else {
            Ok(
                Consulta::Insert {
                    tabla: token[2],
                    into: columnas_de(token.subrange(3, v)),
                    valores: token.skip(v + 1),
                },
            )
        },
        _ => Err(Errores::InvalidSyntax),
    }
}

/// Parts each piece of `partes` from the white space around it.
fn recortar_cada(partes: &Vec<Vec<char>>) -> (r: Vec<String>)
    ensures
        vistas(r@) == Seq::new(partes.len() as nat, |i: int| recortado(partes@[i]@)),
{
    let mut r: Vec<String> = Vec::new();
    let mut i: usize = 0;
    while i < partes.len()
        invariant
            i <= partes.len(),
            r.len() == i,
            forall|k: int| 0 <= k < i ==> (#[trigger] r@[k])@ == recortado(partes@[k]@),
        decreases partes.len() - i,
    {
        r.push(cadena(&recortar(&partes[i])));
        i += 1;
    }
    assert(vistas(r@) =~= Seq::new(partes.len() as nat, |i: int| recortado(partes@[i]@)));
    r
}

/// Parses an `INSERT` query from its tokens and their upper-case forms.
pub fn parser_insert(token: &Vec<Vec<char>>, mayus: &Vec<Vec<char>>) -> (r: Result<
    Comandos,
    Errores,
>)
    requires
        token.len() == mayus.len(),
    ensures
        es_comando(r, insert_de(vistas(token@), vistas(mayus@))),
{
    let indice_into = obtener_indice(mayus, "INTO");
    let indice_values = obtener_indice(mayus, "VALUES");
    match (indice_into, indice_values) {
        (Some(indice_into), Some(indice_values)) => {
            if indice_into != 1 || indice_values <= 3 {
                return Err(Errores::InvalidSyntax);
            }
            let ghost todos = vistas(token@);
            let tabla = cadena(&token[2]);
            let valores = cadenas_tramo(token, indice_values + 1, token.len());
            let sep = espacio();
            let junto = unir_tramo(token, 3, indice_values, &sep);
            let limpio = quitar_finales(&quitar_iniciales(&junto, '('), ')');
            let partes = partir(&limpio, ',');
            let into = recortar_cada(&partes);
            proof {
                assert(todos.skip(indice_values + 1) =~= todos.subrange(
                    indice_values + 1,
                    token.len() as int,
                ));
                assert(vistas(into@) =~= columnas_de(todos.subrange(3, indice_values as int))) by {
                    assert forall|k: int| 0 <= k < partes.len() implies vistas(into@)[k]
                        == columnas_de(todos.subrange(3, indice_values as int))[k] by {
                        assert(vistas(partes@)[k] == partes@[k]@);
                    }
                }
            }
            Ok(Comandos::Insert { tabla, into, valores })
        },
        _ => Err(Errores::InvalidSyntax),
    }
}

/// What an `UPDATE` query says. The table is the second token. What
/// follows `SET` is the assignments, up to `WHERE` if there is one, and what
/// follows `WHERE` is the clause; both must hold a token at least, and `SET`
/// must come first. Without a `WHERE` the clause is empty.
pub open spec fn update_de(token: Seq<Seq<char>>, mayus: Seq<Seq<char>>) -> Result<
    Consulta,
    Errores,
> {
    match indice_de(mayus, "SET"@) {
        None => Err(Errores::InvalidSyntax),
        Some(s) => {
            let w = match indice_de(mayus, "WHERE"@) {
                Some(w) => w,
                None => 0,
            };
            if token.len() < 2 {
                Err(Errores::InvalidSyntax)
            } else if w == 0 {
                Ok(
                    Consulta::Update {
                        tabla: token[1],
                        clausula_set: unido(token.skip(s + 1), seq![' ']),
                        clausula_where: Seq::empty(),
                    },
                )
            } else if s >= w || s + 1 >= token.len() || w + 1 >= token.len() {
                Err(Errores::InvalidSyntax)
            } else {
                Ok(
                    Consulta::Update {
                        tabla: token[1],
                        clausula_set: unido(token.subrange(s + 1, w), seq![' ']),
                        clausula_where: unido(token.skip(w + 1), seq![' ']),
                    },
                )
            }
        },
    }
}

/// Parses an `UPDATE` query from its tokens and their upper-case forms.
pub fn parser_update(token: &Vec<Vec<char>>, mayus: &Vec<Vec<char>>) -> (r: Result<
    Comandos,
    Errores,
>)
    requires
        token.len() == mayus.len(),
    ensures
        es_comando(r, update_de(vistas(token@), vistas(mayus@))),
{
    let indice_set = match obtener_indice(mayus, "SET") {
        Some(index) => index,
        None => {
            return Err(Errores::InvalidSyntax);
        },
    };
    let indice_where = match obtener_indice(mayus, "WHERE") {
        Some(index) => index,
        None => 0,
    };
    if token.len() < 2 {
        return Err(Errores::InvalidSyntax);
    }
    let ghost todos = vistas(token@);
    let sep = espacio();
    let tabla = cadena(&token[1]);
    if indice_where == 0 {
        assert(todos.skip(indice_set + 1) =~= todos.subrange(
            indice_set + 1,
            token.len() as int,
        ));
        let clausula_set = cadena(&unir_tramo(token, indice_set + 1, token.len(), &sep));
        return Ok(Comandos::Update { tabla, clausula_set, clausula_where: String::new() });
    }
    if indice_set >= indice_where || indice_set + 1 >= token.len() || indice_where + 1
        >= token.len() {
        return Err(Errores::InvalidSyntax);
    }
    assert(todos.skip(indice_where + 1) =~= todos.subrange(
        indice_where + 1,
        token.len() as int,
    ));
    let clausula_where = cadena(&unir_tramo(token, indice_where + 1, token.len(), &sep));
    let clausula_set = cadena(&unir_tramo(token, indice_set + 1, indice_where, &sep));
    Ok(Comandos::Update { tabla, clausula_set, clausula_where })
}

/// What a `DELETE` query says. `FROM` must be the second token and the table
/// the third, from whose end semicolons are taken off. What follows `WHERE`
/// is the clause; without a `WHERE` the clause is empty.
pub open spec fn delete_de(token: Seq<Seq<char>>, mayus: Seq<Seq<char>>) -> Result<
    Consulta,
    Errores,
> {
    if token.len() < 3 || mayus[1] != "FROM"@ {
        Err(Errores::InvalidSyntax)
    } else {
        let tabla = sin_sufijos(sin_sufijos(token[2], seq![';']), seq![' ', ';']);
        match indice_de(mayus, "WHERE"@) {
            Some(w) => Ok(
                Consulta::Delete { tabla, clausula_where: unido(token.skip(w + 1), seq![' ']) },
            ),
            None => Ok(Consulta::Delete { tabla, clausula_where: Seq::empty() }),
        }
    }
}

/// Parses a `DELETE` query from its tokens and their upper-case forms.
pub fn parser_delete(token: &Vec<Vec<char>>, mayus: &Vec<Vec<char>>) -> (r: Result<
    Comandos,
    Errores,
>)
    requires
        token.len() == mayus.len(),
    ensures
        es_comando(r, delete_de(vistas(token@), vistas(mayus@))),
{
    if token.len() < 3 || !iguales(&mayus[1], &caracteres("FROM")) {
        return Err(Errores::InvalidSyntax);
    }
    let ghost todos = vistas(token@);
    let tabla = cadena(&quitar_sufijos(&quitar_finales(&token[2], ';'), &par(' ', ';')));
    let clausula_where = match obtener_indice(mayus, "WHERE") {
        Some(indice_where) => {
            assert(todos.skip(indice_where + 1) =~= todos.subrange(
                indice_where + 1,
                token.len() as int,
            ));
            let sep = espacio();
            cadena(&unir_tramo(token, indice_where + 1, token.len(), &sep))
        },
        None => String::new(),
    };
    Ok(Comandos::Delete { tabla, clausula_where })
}

/// The predicate "is not the lone semicolon".
pub open spec fn no_es_punto_y_coma() -> spec_fn(Seq<char>) -> bool {
    |t: Seq<char>| t != seq![';']
}

/// The predicate "holds more than white space".
pub open spec fn no_es_blanco() -> spec_fn(Seq<char>) -> bool {
    |t: Seq<char>| recortado(t).len() > 0
}

/// Drops each lone semicolon from a list of texts.
pub fn eliminar_punto_y_coma(c_o: Vec<String>) -> (r: Vec<String>)
    ensures
        vistas(r@) == filtrado(vistas(c_o@), no_es_punto_y_coma()),
{
    let ghost todos = vistas(c_o@);
    let mut res: Vec<String> = Vec::new();
    let mut i: usize = 0;
    assert(todos.take(0) =~= Seq::empty());
    assert(vistas(res@) =~= Seq::empty());
    while i < c_o.len()
        invariant
            i <= c_o.len(),
            todos == vistas(c_o@),
            vistas(res@) == filtrado(todos.take(i as int), no_es_punto_y_coma()),
        decreases c_o.len() - i,
    {
        let elemento = caracteres(c_o[i].as_str());
        proof {
            assert(todos.take(i + 1).drop_last() =~= todos.take(i as int));
            assert(todos.take(i + 1).last() == elemento@);
            assert(seq![';'].len() == 1 && seq![';'][0] == ';');
        }
        if !(elemento.len() == 1 && elemento[0] == ';') {
            let copia = cadena(&elemento);
            proof {
                lema_vistas_push(res@, copia);
            }
            res.push(copia);
        } else {
            assert(elemento@ =~= seq![';']);
        }
        i += 1;
    }
    assert(todos.take(i as int) =~= todos);
    res
}

/// The fields that a `SELECT` names: each token between `SELECT` and `FROM`
/// without the spaces at its start and the commas at its end, leaving out
/// those that hold nothing but white space.
pub open spec fn campos_de(tokens: Seq<Seq<char>>) -> Seq<Seq<char>> {
    filtrado(
        Seq::new(tokens.len(), |i: int| sin_sufijos(sin_prefijos(tokens[i], seq![' ']), seq![','])),
        no_es_blanco(),
    )
}

/// Reads the fields that a `SELECT` names from the tokens of `token` between
/// the positions `desde` and `hasta`.
fn leer_campos(token: &Vec<Vec<char>>, desde: usize, hasta: usize) -> (r: Vec<String>)
    requires
        desde <= hasta <= token.len(),
    ensures
        vistas(r@) == campos_de(vistas(token@).subrange(desde as int, hasta as int)),
{
    let ghost tokens = vistas(token@).subrange(desde as int, hasta as int);
    let ghost limpios = Seq::new(
        tokens.len(),
        |i: int| sin_sufijos(sin_prefijos(tokens[i], seq![' ']), seq![',']),
    );
    let mut r: Vec<String> = Vec::new();
    let mut i: usize = desde;
    assert(limpios.take(0) =~= Seq::empty());
    assert(vistas(r@) =~= Seq::empty());
    while i < hasta
        invariant
            desde <= i <= hasta <= token.len(),
            tokens == vistas(token@).subrange(desde as int, hasta as int),
            limpios == Seq::new(
                tokens.len(),
                |i: int| sin_sufijos(sin_prefijos(tokens[i], seq![' ']), seq![',']),
            ),
            vistas(r@) == filtrado(limpios.take(i - desde), no_es_blanco()),
        decreases hasta - i,
    {
        let limpio = quitar_finales(&quitar_iniciales(&token[i], ' '), ',');
        proof {
            assert(tokens[i - desde] == token@[i as int]@);
            assert(limpios.take(i - desde + 1).drop_last() =~= limpios.take(i - desde));
            assert(limpios.take(i - desde + 1).last() == limpio@);
        }
        if recortar(&limpio).len() > 0 {
            let campo = cadena(&limpio);
            proof {
                lema_vistas_push(r@, campo);
            }
            r.push(campo);
        }
        i += 1;
    }
    assert(limpios.take(hasta - desde) =~= limpios);
    r
}

/// What a `SELECT` query says. The fields stand between `SELECT` and `FROM`
/// and the table after `FROM`. What follows `WHERE`, up to `ORDER` if there
/// is one, is the clause. What follows the token after `ORDER` is the
/// ordering, which needs that token to be there; a lone semicolon is taken
/// out of it when the query has a `WHERE`. `FROM` cannot be the first token,
/// and `ORDER` cannot come before the token that follows `WHERE`.
pub open spec fn select_de(token: Seq<Seq<char>>, mayus: Seq<Seq<char>>) -> Result<
    Consulta,
    Errores,
> {
    match indice_de(mayus, "FROM"@) {
        None => Err(Errores::InvalidSyntax),
        Some(f) => if f < 1 || f + 1 >= token.len() {
            Err(Errores::InvalidSyntax)
        } else {
            let campos = campos_de(token.subrange(1, f));
            let tabla = token[f + 1];
            match (indice_de(mayus, "WHERE"@), indice_de(mayus, "ORDER"@)) {
                (Some(w), Some(o)) => if o + 2 <= token.len() && w + 1 <= o {
                    Ok(
                        Consulta::Select {
                            campos,
                            tabla,
                            clausula_where: unido(token.subrange(w + 1, o), seq![' ']),
                            clausula_order: filtrado(token.skip(o + 2), no_es_punto_y_coma()),
                        },
                    )
                } else {
                    Err(Errores::InvalidSyntax)
                },
                (Some(w), None) => Ok(
                    Consulta::Select {
                        campos,
                        tabla,
                        clausula_where: unido(token.skip(w + 1), seq![' ']),
                        clausula_order: Seq::empty(),
                    },
                ),
                (None, Some(o)) => if o + 2 <= token.len() {
                    Ok(
                        Consulta::Select {
                            campos,
                            tabla,
                            clausula_where: Seq::empty(),
                            clausula_order: token.skip(o + 2),
                        },
                    )
                } else {
                    Err(Errores::InvalidSyntax)
                },
                (None, None) => Ok(
                    Consulta::Select {
                        campos,
                        tabla,
                        clausula_where: Seq::empty(),
                        clausula_order: Seq::empty(),
                    },
                ),
            }
        },
    }
}

/// Parses a `SELECT` query from its tokens and their upper-case forms.
pub fn parser_select(token: &Vec<Vec<char>>, mayus: &Vec<Vec<char>>) -> (r: Result<
    Comandos,
    Errores,
>)
    requires
        token.len() == mayus.len(),
    ensures
        es_comando(r, select_de(vistas(token@), vistas(mayus@))),
{
    let indice_from = match obtener_indice(mayus, "FROM") {
        Some(index) => index,
        None => {
            return Err(Errores::InvalidSyntax);
        },
    };
    if indice_from < 1 || indice_from + 1 >= token.len() {
        return Err(Errores::InvalidSyntax);
    }
    let ghost todos = vistas(token@);
    let n = token.len();
    let sep = espacio();
    let campos = leer_campos(token, 1, indice_from);
    let tabla = cadena(&token[indice_from + 1]);
    let indice_where = obtener_indice(mayus, "WHERE");
    let indice_order_by = obtener_indice(mayus, "ORDER");
    let mut clausula_where = String::new();
    let mut clausula_order: Vec<String> = Vec::new();
    assert(vistas(clausula_order@) =~= Seq::empty());
    match (indice_where, indice_order_by) {
        (Some(indice_where), Some(indice_order_by)) => {
            if n - indice_order_by >= 2 && indice_where + 1 <= indice_order_by {
                assert(todos.skip(indice_order_by + 2) =~= todos.subrange(
                    indice_order_by + 2,
                    n as int,
                ));
                clausula_where =
                cadena(&unir_tramo(token, indice_where + 1, indice_order_by, &sep));
                clausula_order =
                eliminar_punto_y_coma(cadenas_tramo(token, indice_order_by + 2, n));
            } else {
                return Err(Errores::InvalidSyntax);
            }
        },
        (Some(indice_where), None) => {
            assert(todos.skip(indice_where + 1) =~= todos.subrange(indice_where + 1, n as int));
            clausula_where = cadena(&unir_tramo(token, indice_where + 1, n, &sep));
        },
        (None, Some(indice_order_by)) => {
            if n - indice_order_by >= 2 {
                assert(todos.skip(indice_order_by + 2) =~= todos.subrange(
                    indice_order_by + 2,
                    n as int,
                ));
                clausula_order = cadenas_tramo(token, indice_order_by + 2, n);
            } else {
                return Err(Errores::InvalidSyntax);
            }
        },
        (None, None) => {},
    }
    Ok(Comandos::Select { campos, tabla, clausula_where, clausula_order })
}

/// What a query says, given its tokens and their upper-case forms: the first
/// token, in any case, tells which of the four queries it is.
pub open spec fn comando_de(token: Seq<Seq<char>>, mayus: Seq<Seq<char>>) -> Result<
    Consulta,
    Errores,
> {
    if token.len() == 0 {
        Err(Errores::InvalidSyntax)
    } else if mayus[0] == "INSERT"@ {
        insert_de(token, mayus)
    } else if mayus[0] == "UPDATE"@ {
        update_de(token, mayus)
    } else if mayus[0] == "DELETE"@ {
        delete_de(token, mayus)
    } else if mayus[0] == "SELECT"@ {
        select_de(token, mayus)
    } else {
        Err(Errores::InvalidSyntax)
    }
}

/// Parses a query from its tokens and their upper-case forms.
pub fn parsear_tokens(token: &Vec<Vec<char>>, mayus: &Vec<Vec<char>>) -> (r: Result<
    Comandos,
    Errores,
>)
    requires
        token.len() == mayus.len(),
    ensures
        es_comando(r, comando_de(vistas(token@), vistas(mayus@))),
{
    if token.len() == 0 {
        return Err(Errores::InvalidSyntax);
    }
    let primera = &mayus[0];
    if iguales(primera, &caracteres("INSERT")) {
        parser_insert(token, mayus)
    } else if iguales(primera, &caracteres("UPDATE")) {
        parser_update(token, mayus)
    } else if iguales(primera, &caracteres("DELETE")) {
        parser_delete(token, mayus)
    } else if iguales(primera, &caracteres("SELECT")) {
        parser_select(token, mayus)
    } else {
        Err(Errores::InvalidSyntax)
    }
}

/// What the text of a query says: its words are its tokens, and keywords
/// are known by their upper-case form.
pub open spec fn parseado(comando: Seq<char>) -> Result<Consulta, Errores> {
    comando_de(palabras(comando), mayusculas_de_cada(palabras(comando)))
}

/// Parses the text of a query.
pub fn parsear(comando: &str) -> (r: Result<Comandos, Errores>)
    ensures
        es_comando(r, parseado(comando@)),
{
    let token = partir_espacios(&caracteres(comando));
    let mayus = pasar_cada_a_mayusculas(&token);
    assert(vistas(mayus@).len() == vistas(token@).len());
    parsear_tokens(&token, &mayus)
}

} // verus!
