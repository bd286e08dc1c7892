//! Running a `DELETE`: the rows that it leaves in a table.

use crate::analizador::analizador_implementacion::{cumple, cumple_c_w};
use crate::analizador::expresion::{Arbol, Expresion};
use crate::comandos::comandos_implementacion::{Comandos, Consulta};
use crate::ejecutor::ejecutor_implementacion::{
    compilar_where, encabezado, es_efecto, indices_de, lectura, leer_encabezado,
    obtener_indices_columnas, where_compilado, Cambio, Efecto,
};
use crate::ejecutor::ejecutor_insert::{es_lista_de_lineas, unir_campos};
use crate::errores::errores_implementacion::Errores;
use crate::texto::{filtrado, lema_vistas_push, unido, vistas};
use vstd::prelude::*;

verus! {

/// The predicate "does not meet the clause `a` in a table with the columns
/// `columnas`".
pub open spec fn no_cumple(a: Arbol, columnas: Seq<Seq<char>>) -> spec_fn(Seq<char>) -> bool {
    |linea: Seq<char>| !cumple(linea, a, indices_de(columnas))
}

/// The lines of the file of a table after the rows that meet the clause `a`
/// have been removed, given the lines of the file or nothing when it could
/// not be read: the line of the column names, and after it the rows that do
/// not meet the clause, in their order. It fails when there is no first
/// line.
pub open spec fn borrado(tabla: Option<Seq<Seq<char>>>, a: Arbol) -> Result<
    Seq<Seq<char>>,
    Errores,
> {
    match tabla {
        None => Err(Errores::Error),
        Some(lineas) => if lineas.len() == 0 {
            Err(Errores::Error)
        } else {
            let columnas = encabezado(lineas);
            Ok(
                seq![unido(columnas, seq![','])] + filtrado(
                    lineas.drop_first(),
                    no_cumple(a, columnas),
                ),
            )
        },
    }
}

/// Gives the lines that the file of a table is to hold once the rows that
/// meet `clausula_where` are removed.
pub fn procesar_archivo_delete(tabla: Option<&Vec<String>>, clausula_where: &Expresion) -> (r:
    Result<Vec<String>, Errores>)
    ensures
        es_lista_de_lineas(r, borrado(lectura(tabla), clausula_where@)),
{
    let lineas = match tabla {
        Some(lineas) => lineas,
        None => {
            return Err(Errores::Error);
        },
    };
    if lineas.len() == 0 {
        return Err(Errores::Error);
    }
    let columnas: Vec<String> = leer_encabezado(lineas);
    let indices_columnas = obtener_indices_columnas(columnas.as_slice());
    let ghost todas = vistas(lineas@);
    let ghost cols = vistas(columnas@);
    let ghost filas = todas.drop_first();
    let mut resultado: Vec<String> = Vec::new();
    let primera = unir_campos(&columnas);
    proof {
        lema_vistas_push(resultado@, primera);
        assert(vistas(resultado@).push(primera@) =~= seq![unido(cols, seq![','])]);
        assert(filas.take(0) =~= Seq::empty());
    }
    resultado.push(primera);
    let mut i: usize = 1;
    while i < lineas.len()
        invariant
            1 <= i <= lineas.len(),
            todas == vistas(lineas@),
            filas == todas.drop_first(),
            cols == encabezado(todas),
            indices_columnas@ == indices_de(cols),
            vistas(resultado@) == seq![unido(cols, seq![','])] + filtrado(
                filas.take(i - 1),
                no_cumple(clausula_where@, cols),
            ),
        decreases lineas.len() - i,
    {
        let linea = &lineas[i];
        proof {
            assert(filas.take(i as int).drop_last() =~= filas.take(i - 1));
            assert(filas.take(i as int).last() == linea@);
        }
        let acepta: bool = match cumple_c_w(linea.as_str(), clausula_where, &indices_columnas) {
            Ok(boolean) => boolean,
            Err(_) => {
                return Err(Errores::InvalidSyntax);
            },
        };
        if !acepta {
            let copia = linea.clone();
            proof {
                lema_vistas_push(resultado@, copia);
                let hechas = filtrado(filas.take(i - 1), no_cumple(clausula_where@, cols));
                assert((seq![unido(cols, seq![','])] + hechas).push(linea@) =~= seq![
                    unido(cols, seq![',']),
                ] + hechas.push(linea@));
            }
            resultado.push(copia);
        }
        i += 1;
    }
    assert(filas.take(lineas.len() - 1) =~= filas);
    Ok(resultado)
}

/// What running a `DELETE` does to a table, given the lines of its file or
/// nothing when the file could not be read: the rows that meet its clause are
/// removed. It fails, with `Error`, on any other query and when the file
/// holds no line, and with a syntax error when the clause does not compile.
pub open spec fn delete_ejecutado(c: Consulta, tabla: Option<Seq<Seq<char>>>) -> Result<
    Cambio,
    Errores,
> {
    match c {
        Consulta::Delete { tabla: _, clausula_where } => match where_compilado(clausula_where) {
            Err(e) => Err(e),
            Ok(a) => match borrado(tabla, a) {
                Ok(l) => Ok(Cambio::Reescribir(l)),
                Err(e) => Err(e),
            },
        },
        _ => Err(Errores::Error),
    }
}

/// Runs a `DELETE` on a table whose file holds the lines of `tabla`, and
/// gives the lines that the file is to hold.
pub fn ejecutar_delete(comando: &Comandos, tabla: Option<&Vec<String>>) -> (r: Result<
    Efecto,
    Errores,
>)
    ensures
        es_efecto(r, delete_ejecutado(comando@, lectura(tabla))),
{
    let clausula_where = match comando {
        Comandos::Delete { tabla: _, clausula_where } => clausula_where,
        _ => {
            return Err(Errores::Error);
        },
    };
    let adaptada: Expresion = match compilar_where(clausula_where.as_str()) {
        Ok(a) => a,
        Err(e) => {
            return Err(e);
        },
    };
    match procesar_archivo_delete(tabla, &adaptada) {
        Ok(lineas) => Ok(Efecto::Reescribir(lineas)),
        Err(e) => Err(e),
    }
}

} // verus!
