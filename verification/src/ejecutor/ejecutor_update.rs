//! Running an `UPDATE`: the rows of a table as it leaves them.

use crate::analizador::analizador_implementacion::{cumple, cumple_c_w};
use crate::analizador::expresion::{Arbol, Expresion};
use crate::comandos::comandos_implementacion::{Comandos, Consulta};
use crate::ejecutor::ejecutor_implementacion::{
    compilar_where, encabezado, es_efecto, indices_de, lectura, leer_encabezado,
    obtener_indices_columnas, where_compilado, Cambio, Efecto,
};
use crate::ejecutor::ejecutor_insert::{es_lista_de_filas, es_lista_de_lineas, filas, unir_campos};
use crate::errores::errores_implementacion::Errores;
use crate::texto::{
    buscar, cadena, cadenas, caracteres, par, partido, partir, quitar_finales, quitar_iniciales,
    quitar_prefijos, quitar_sufijos, recortado, recortar, sin_prefijos, sin_sufijos, textos, unido,
    vistas,
};
use vstd::hash_map::StringHashMap;
use vstd::prelude::*;

verus! {

/// The assignments that the parts of a `SET` clause make: each part holds
/// the name of a column, an equals sign and a value, and gives the pair of
/// the two texts around the sign. An error where a part holds no equals
/// sign or more than one.
pub open spec fn asignaciones_de(partes: Seq<Seq<char>>) -> Result<
    Seq<Seq<Seq<char>>>,
    Errores,
> {
    if forall|i: int| 0 <= i < partes.len() ==> (#[trigger] partido(partes[i], '=')).len() == 2 {
        Ok(Seq::new(partes.len(), |i: int| partido(partes[i], '=')))
    } else {
        Err(Errores::InvalidSyntax)
    }
}

/// Whether every assignment of a list is a pair.
pub open spec fn son_pares(set: Seq<Seq<Seq<char>>>) -> bool {
    forall|i: int| 0 <= i < set.len() ==> (#[trigger] set[i]).len() == 2
}

/// Whether every assignment of a list holds a name and a value at least:
/// the first two of its parts, which are the ones that are read.
pub open spec fn tienen_nombre_y_valor(set: Seq<Seq<Seq<char>>>) -> bool {
    forall|i: int| 0 <= i < set.len() ==> (#[trigger] set[i]).len() >= 2
}

/// Reads the assignments that the parts of a `SET` clause make.
pub fn obtener_clausula(clausula_separada: Vec<String>) -> (r: Result<Vec<Vec<String>>, Errores>)
    ensures
        es_lista_de_filas(r, asignaciones_de(vistas(clausula_separada@))),
        r is Ok ==> son_pares(filas(r->Ok_0@)),
{
    let ghost partes = vistas(clausula_separada@);
    let mut resultado: Vec<Vec<String>> = Vec::new();
    let mut i: usize = 0;
    while i < clausula_separada.len()
        invariant
            i <= clausula_separada.len(),
            partes == vistas(clausula_separada@),
            resultado.len() == i,
            forall|k: int|
                0 <= k < i ==> (#[trigger] partido(partes[k], '=')) == vistas(resultado@[k]@)
                    && resultado@[k].len() == 2,
        decreases clausula_separada.len() - i,
    {
        assert(partes[i as int] == clausula_separada@[i as int]@);
        let actual: Vec<String> = cadenas(&partir(&caracteres(clausula_separada[i].as_str()), '='));
        if actual.len() != 2 {
            assert(partido(partes[i as int], '=').len() != 2);
            return Err(Errores::InvalidSyntax);
        }
        resultado.push(actual);
        i += 1;
    }
    assert(filas(resultado@) =~= asignaciones_de(partes)->Ok_0);
    Ok(resultado)
}

/// The assignments of a `SET` clause: its parts between commas, each read
/// as an assignment. Every failure is the error `Error`.
pub open spec fn set_limpio(clausula_set: Seq<char>) -> Result<Seq<Seq<Seq<char>>>, Errores> {
    match asignaciones_de(partido(clausula_set, ',')) {
        Ok(s) => Ok(s),
        Err(_) => Err(Errores::Error),
    }
}

/// Reads the assignments of a `SET` clause.
pub fn clausula_set_limpia(clausula_set: &str) -> (r: Result<Vec<Vec<String>>, Errores>)
    ensures
        es_lista_de_filas(r, set_limpio(clausula_set@)),
        r is Ok ==> son_pares(filas(r->Ok_0@)),
{
    let clausula_separada: Vec<String> = cadenas(&partir(&caracteres(clausula_set), ','));
    match obtener_clausula(clausula_separada) {
        Ok(res) => Ok(res),
        Err(_) => Err(Errores::Error),
    }
}

/// The name of the column of an assignment without the spaces around it.
pub open spec fn sin_espacios(nombre: Seq<char>) -> Seq<char> {
    sin_prefijos(sin_sufijos(nombre, seq![' ']), seq![' '])
}

/// Whether a list of assignments suits a table with the columns `columnas`:
/// there are no more assignments than columns, each names a column once the
/// spaces around the name are taken off, and no two assignments are written
/// to the same name.
pub open spec fn set_valido(set: Seq<Seq<Seq<char>>>, columnas: Seq<Seq<char>>) -> bool {
    &&& set.len() <= columnas.len()
    &&& forall|i: int| 0 <= i < set.len() ==> columnas.contains(sin_espacios(#[trigger] set[i][0]))
    &&& forall|i: int, j: int| 0 <= i < j < set.len() ==> set[i][0] != set[j][0]
}

/// Tells whether a list of assignments suits a table with the columns
/// `columnas`.
pub fn validar_clausula_set(clausula_set: &Vec<Vec<String>>, columnas: &Vec<String>) -> (r: bool)
    requires
        forall|i: int| 0 <= i < clausula_set.len() ==> (#[trigger] clausula_set@[i]).len() > 0,
    ensures
        r == set_valido(filas(clausula_set@), vistas(columnas@)),
{
    if clausula_set.len() > columnas.len() {
        return false;
    }
    let ghost set = filas(clausula_set@);
    let ghost cols = vistas(columnas@);
    let nombres = textos(columnas);
    let mut auxiliar: Vec<Vec<char>> = Vec::new();
    let mut i: usize = 0;
    while i < clausula_set.len()
        invariant
            i <= clausula_set.len(),
            set == filas(clausula_set@),
            cols == vistas(columnas@),
            cols == vistas(nombres@),
            forall|k: int|
                0 <= k < clausula_set.len() ==> (#[trigger] clausula_set@[k]).len() > 0,
            auxiliar.len() == i,
            forall|k: int| 0 <= k < i ==> (#[trigger] auxiliar@[k])@ == set[k][0],
            forall|k: int| 0 <= k < i ==> cols.contains(sin_espacios(#[trigger] set[k][0])),
            forall|k: int, j: int| 0 <= k < j < i ==> set[k][0] != set[j][0],
        decreases clausula_set.len() - i,
    {
        assert(clausula_set@[i as int].len() > 0);
        let escrito = caracteres(clausula_set[i][0].as_str());
        assert(set[i as int][0] == escrito@);
        let actual = quitar_iniciales(&quitar_finales(&escrito, ' '), ' ');
        let en_columnas = buscar(&nombres, &actual);
        let repetido = buscar(&auxiliar, &escrito);
        proof {
            crate::texto::lema_posicion_desde(cols, actual@, 0);
            crate::texto::lema_posicion_desde(vistas(auxiliar@), escrito@, 0);
        }
        if en_columnas.is_some() && repetido.is_none() {
            assert forall|k: int| 0 <= k < i implies set[k][0] != set[i as int][0] by {
                assert(vistas(auxiliar@)[k] == auxiliar@[k]@);
            }
            auxiliar.push(escrito);
        } else {
            proof {
                if en_columnas.is_none() {
                    assert(!cols.contains(sin_espacios(set[i as int][0])));
                } else {
                    let k = repetido.unwrap() as int;
                    assert(vistas(auxiliar@)[k] == auxiliar@[k]@);
                    assert(set[k][0] == set[i as int][0]);
                }
            }
            return false;
        }
        i += 1;
    }
    true
}

/// The value of an assignment without what wraps it: a space and a single
/// quote, single quotes and spaces at its start, and a space and a single
/// quote and single quotes at its end, in that order.
pub open spec fn valor_nuevo(v: Seq<char>) -> Seq<char> {
    let a = sin_prefijos(sin_prefijos(sin_prefijos(v, seq![' ', '\'']), seq!['\'']), seq![' ']);
    sin_sufijos(sin_sufijos(a, seq![' ', '\'']), seq!['\''])
}

/// The fields of a row after the assignments of `set` from position `i` on
/// have been made, each to the column that its name tells once the white
/// space around the name is taken off. An error where the name is no column
/// or the row is too short for it.
pub open spec fn campos_desde(
    campos: Seq<Seq<char>>,
    set: Seq<Seq<Seq<char>>>,
    indices: Map<Seq<char>, usize>,
    i: int,
) -> Result<Seq<Seq<char>>, Errores>
    decreases set.len() - i,
{
    if i < 0 || i >= set.len() {
        Ok(campos)
    } else {
        let columna = recortado(set[i][0]);
        if indices.contains_key(columna) && indices[columna] < campos.len() {
            campos_desde(
                campos.update(indices[columna] as int, valor_nuevo(set[i][1])),
                set,
                indices,
                i + 1,
            )
        } else {
            Err(Errores::Error)
        }
    }
}

/// Changing the fields of a row fails with the error `Error` only.
pub proof fn lema_error_de_campos(
    campos: Seq<Seq<char>>,
    set: Seq<Seq<Seq<char>>>,
    indices: Map<Seq<char>, usize>,
    i: int,
)
    ensures
        campos_desde(campos, set, indices, i) is Err ==> campos_desde(campos, set, indices, i)
            == Err::<Seq<Seq<char>>, Errores>(Errores::Error),
    decreases set.len() - i,
{
    if 0 <= i < set.len() {
        let columna = recortado(set[i][0]);
        if indices.contains_key(columna) && indices[columna] < campos.len() {
            lema_error_de_campos(
                campos.update(indices[columna] as int, valor_nuevo(set[i][1])),
                set,
                indices,
                i + 1,
            );
        }
    }
}

/// A line of the table after the assignments of `set` have been made in it:
/// the line is parted at its commas, the assignments are made to its fields,
/// and the fields are joined by commas again.
pub open spec fn linea_actualizada(
    linea: Seq<char>,
    set: Seq<Seq<Seq<char>>>,
    indices: Map<Seq<char>, usize>,
) -> Result<Seq<char>, Errores> {
    match campos_desde(partido(linea, ','), set, indices, 0) {
        Ok(campos) => Ok(unido(campos, seq![','])),
        Err(e) => Err(e),
    }
}

/// Makes the assignments of `clausula_set` in a line of the table.
pub fn actualizar_linea(
    linea: &str,
    clausula_set: &Vec<Vec<String>>,
    indice_columnas: &StringHashMap<usize>,
) -> (r: Result<String, Errores>)
    requires
        tienen_nombre_y_valor(filas(clausula_set@)),
    ensures
        match linea_actualizada(linea@, filas(clausula_set@), indice_columnas@) {
            Ok(l) => r is Ok && r->Ok_0@ == l,
            Err(e) => r == Err::<String, Errores>(e),
        },
{
    let ghost set = filas(clausula_set@);
    let mut linea_separada: Vec<String> = cadenas(&partir(&caracteres(linea), ','));
    let mut i: usize = 0;
    while i < clausula_set.len()
        invariant
            i <= clausula_set.len(),
            set == filas(clausula_set@),
            tienen_nombre_y_valor(set),
            campos_desde(partido(linea@, ','), set, indice_columnas@, 0) == campos_desde(
                vistas(linea_separada@),
                set,
                indice_columnas@,
                i as int,
            ),
        decreases clausula_set.len() - i,
    {
        let actual = &clausula_set[i];
        assert(set[i as int].len() >= 2);
        assert(set[i as int] == vistas(actual@));
        let columna_a_modificar = cadena(&recortar(&caracteres(actual[0].as_str())));
        let valor = caracteres(actual[1].as_str());
        let a = quitar_iniciales(
            &quitar_iniciales(&quitar_prefijos(&valor, &par(' ', '\'')), '\''),
            ' ',
        );
        let nuevo_valor = cadena(&quitar_finales(&quitar_sufijos(&a, &par(' ', '\'')), '\''));
        assert(nuevo_valor@ == valor_nuevo(set[i as int][1]));
        match indice_columnas.get(columna_a_modificar.as_str()) {
            Some(indice) => {
                if *indice < linea_separada.len() {
                    let ghost antes = vistas(linea_separada@);
                    linea_separada.set(*indice, nuevo_valor);
                    assert(vistas(linea_separada@) =~= antes.update(*indice as int, nuevo_valor@));
                } else {
                    return Err(Errores::Error);
                }
            },
            None => {
                return Err(Errores::Error);
            },
        }
        i += 1;
    }
    Ok(unir_campos(&linea_separada))
}

/// The rows of a table after an update, given the rows before it: a row
/// that meets the clause `a` takes the assignments of `set`, and any other
/// stays as it is. An error, `Error`, where a row that meets the clause
/// cannot take them.
pub open spec fn filas_actualizadas(
    filas: Seq<Seq<char>>,
    set: Seq<Seq<Seq<char>>>,
    a: Arbol,
    indices: Map<Seq<char>, usize>,
) -> Result<Seq<Seq<char>>, Errores> {
    if forall|k: int|
        0 <= k < filas.len() && cumple(#[trigger] filas[k], a, indices) ==> linea_actualizada(
            filas[k],
            set,
            indices,
        ) is Ok {
        Ok(
            Seq::new(
                filas.len(),
                |k: int|
                    if cumple(filas[k], a, indices) {
                        linea_actualizada(filas[k], set, indices)->Ok_0
                    } else {
                        filas[k]
                    },
            ),
        )
    } else {
        Err(Errores::Error)
    }
}

/// The lines of the file of a table after an update, given the lines of the
/// file or nothing when it could not be read: the line of the column names,
/// and after it the rows as the update leaves them. It fails with `Error`
/// when there is no first line or a row cannot be changed, and with
/// `InvalidColumn` when the assignments do not suit the columns.
pub open spec fn actualizado(
    tabla: Option<Seq<Seq<char>>>,
    set: Seq<Seq<Seq<char>>>,
    a: Arbol,
) -> Result<Seq<Seq<char>>, Errores> {
    match tabla {
        None => Err(Errores::Error),
        Some(lineas) => if lineas.len() == 0 {
            Err(Errores::Error)
        } else {
            let columnas = encabezado(lineas);
            if !set_valido(set, columnas) {
                Err(Errores::InvalidColumn)
            } else {
                match filas_actualizadas(lineas.drop_first(), set, a, indices_de(columnas)) {
                    Ok(f) => Ok(seq![unido(columnas, seq![','])] + f),
                    Err(e) => Err(e),
                }
            }
        },
    }
}

/// Gives the lines that the file of a table is to hold once the rows that
/// meet `clausula_where` have taken the assignments of `clausula_set`.
pub fn procesar_archivo_update(
    tabla: Option<&Vec<String>>,
    clausula_set: &Vec<Vec<String>>,
    clausula_where: &Expresion,
) -> (r: Result<Vec<String>, Errores>)
    requires
        tienen_nombre_y_valor(filas(clausula_set@)),
    ensures
        es_lista_de_lineas(
            r,
            actualizado(lectura(tabla), filas(clausula_set@), clausula_where@),
        ),
{
    let lineas = match tabla {
        Some(lineas) => lineas,
        None => {
            return Err(Errores::Error);
        },
    };
    if lineas.len() == 0 {
        return Err(Errores::Error);
    }
    let columnas: Vec<String> = leer_encabezado(lineas);
    let indices_columnas = obtener_indices_columnas(columnas.as_slice());
    let ghost set = filas(clausula_set@);
    assert forall|k: int| 0 <= k < clausula_set.len() implies (#[trigger] clausula_set@[k]).len()
        > 0 by {
        assert(set[k].len() >= 2);
    }
    if !validar_clausula_set(clausula_set, &columnas) {
        return Err(Errores::InvalidColumn);
    }
    let ghost todas = vistas(lineas@);
    let ghost cols = vistas(columnas@);
    let ghost indices = indices_de(cols);
    let ghost viejas = todas.drop_first();
    let ghost a = clausula_where@;
    let mut resultado: Vec<String> = Vec::new();
    resultado.push(unir_campos(&columnas));
    let mut i: usize = 1;
    while i < lineas.len()
        invariant
            1 <= i <= lineas.len(),
            lectura(tabla) == Some(todas),
            todas == vistas(lineas@),
            viejas == todas.drop_first(),
            cols == encabezado(todas),
            set_valido(set, cols),
            set == filas(clausula_set@),
            tienen_nombre_y_valor(set),
            a == clausula_where@,
            indices == indices_de(cols),
            indices_columnas@ == indices,
            resultado.len() == i,
            resultado@[0]@ == unido(cols, seq![',']),
            forall|k: int|
                0 <= k < i - 1 && cumple(#[trigger] viejas[k], a, indices) ==> linea_actualizada(
                    viejas[k],
                    set,
                    indices,
                ) == Ok::<Seq<char>, Errores>(resultado@[k + 1]@),
            forall|k: int|
                0 <= k < i - 1 && !cumple(#[trigger] viejas[k], a, indices) ==> resultado@[k + 1]@
                    == viejas[k],
        decreases lineas.len() - i,
    {
        let linea = &lineas[i];
        assert(viejas[i - 1] == linea@);
        let acepta = match cumple_c_w(linea.as_str(), clausula_where, &indices_columnas) {
            Ok(boolean) => boolean,
            Err(_) => {
                return Err(Errores::InvalidSyntax);
            },
        };
        let nueva = if acepta {
            match actualizar_linea(linea.as_str(), clausula_set, &indices_columnas) {
                Ok(l) => l,
                Err(_) => {
                    proof {
                        lema_error_de_campos(partido(linea@, ','), set, indices, 0);
                        assert(cumple(viejas[i - 1], a, indices));
                        assert(linea_actualizada(viejas[i - 1], set, indices) is Err);
                        assert(filas_actualizadas(viejas, set, a, indices) is Err);
                    }
                    return Err(Errores::Error);
                },
            }
        } else {
            linea.clone()
        };
        resultado.push(nueva);
        i += 1;
    }
    proof {
        let f = filas_actualizadas(viejas, set, a, indices);
        assert(f is Ok);
        assert(vistas(resultado@) =~= seq![unido(cols, seq![','])] + f->Ok_0);
    }
    Ok(resultado)
}

/// What running an `UPDATE` does to a table, given the lines of its file or
/// nothing when the file could not be read: the rows that meet its clause
/// take its assignments. It fails with `Error` on any other query, when the
/// assignments are malformed, when the file holds no line and when a row
/// cannot be changed; with a syntax error when the clause does not compile;
/// and with `InvalidColumn` when the assignments do not suit the columns.
pub open spec fn update_ejecutado(c: Consulta, tabla: Option<Seq<Seq<char>>>) -> Result<
    Cambio,
    Errores,
> {
    match c {
        Consulta::Update { tabla: _, clausula_set, clausula_where } => match set_limpio(
            clausula_set,
        ) {
            Err(e) => Err(e),
            Ok(set) => match where_compilado(clausula_where) {
                Err(e) => Err(e),
                Ok(a) => match actualizado(tabla, set, a) {
                    Ok(l) => Ok(Cambio::Reescribir(l)),
                    Err(e) => Err(e),
                },
            },
        },
        _ => Err(Errores::Error),
    }
}

/// Runs an `UPDATE` on a table whose file holds the lines of `tabla`, and
/// gives the lines that the file is to hold.
pub fn ejecutar_update(comando: &Comandos, tabla: Option<&Vec<String>>) -> (r: Result<
    Efecto,
    Errores,
>)
    ensures
        es_efecto(r, update_ejecutado(comando@, lectura(tabla))),
{
    let (clausula_set, clausula_where) = match comando {
        Comandos::Update { tabla: _, clausula_set, clausula_where } => (
            clausula_set,
            clausula_where,
        ),
        _ => {
            return Err(Errores::Error);
        },
    };
    let clausula_set_limpia: Vec<Vec<String>> = match clausula_set_limpia(clausula_set.as_str()) {
        Ok(lista) => lista,
        Err(e) => {
            return Err(e);
        },
    };
    let adaptada: Expresion = match compilar_where(clausula_where.as_str()) {
        Ok(a) => a,
        Err(e) => {
            return Err(e);
        },
    };
    match procesar_archivo_update(tabla, &clausula_set_limpia, &adaptada) {
        Ok(lineas) => Ok(Efecto::Reescribir(lineas)),
        Err(e) => Err(e),
    }
}

} // verus!
