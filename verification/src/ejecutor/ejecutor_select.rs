//! Running a `SELECT`: the rows that it picks, their order and the lines
//! that show them.

use crate::analizador::analizador_implementacion::{campos, cumple, cumple_c_w, separar_campos};
use crate::analizador::expresion::{Arbol, Expresion};
use crate::comandos::comandos_implementacion::{Comandos, Consulta};
use crate::ejecutor::ejecutor_implementacion::{
    compilar_where, encabezado, es_efecto, indices_de, lectura, leer_encabezado,
    obtener_indices_columnas, where_compilado, Cambio, Efecto,
};
use crate::ejecutor::ejecutor_insert::{es_lista_de_filas, es_lista_de_lineas, filas, unir_campos};
use crate::errores::errores_implementacion::Errores;
use crate::texto::{
    cadena, caracteres, es_menor, filtrado, iguales, lema_vistas_push, mayusculas,
    pasar_a_mayusculas, precede, quitar_finales, recortado, recortar, sin_sufijos, unido, vistas,
};
use vstd::hash_map::StringHashMap;
use vstd::prelude::*;

verus! {

/// The text by which a row is ordered: its field at position `indice`,
/// without the white space around it.
pub open spec fn clave(fila: Seq<Seq<char>>, indice: int) -> Seq<char> {
    recortado(fila[indice])
}

/// Whether the row `a` has its place before the row `b`: its key comes
/// before that of `b` in the order of strings, or after it when the order is
/// descending.
pub open spec fn va_antes(
    a: Seq<Seq<char>>,
    b: Seq<Seq<char>>,
    indice: int,
    descendente: bool,
) -> bool {
    if descendente {
        precede(clave(b, indice), clave(a, indice))
    } else {
        precede(clave(a, indice), clave(b, indice))
    }
}

/// The ordered rows `s` with the row `x` put in its place: after every row
/// that has not its place after `x`.
pub open spec fn insertada(
    s: Seq<Seq<Seq<char>>>,
    x: Seq<Seq<char>>,
    indice: int,
    descendente: bool,
) -> Seq<Seq<Seq<char>>>
    decreases s.len(),
{
    if s.len() > 0 && va_antes(x, s.last(), indice, descendente) {
        insertada(s.drop_last(), x, indice, descendente).push(s.last())
    } else {
        s.push(x)
    }
}

/// The rows of `s` in the order of their keys. Rows with the same key keep
/// the order that they have in `s`.
pub open spec fn ordenadas(s: Seq<Seq<Seq<char>>>, indice: int, descendente: bool) -> Seq<
    Seq<Seq<char>>,
>
    decreases s.len(),
{
    if s.len() == 0 {
        Seq::empty()
    } else {
        insertada(ordenadas(s.drop_last(), indice, descendente), s.last(), indice, descendente)
    }
}

/// Putting a row in its place is inserting it at the position before which
/// no row has its place after it and from which on every row has.
pub proof fn lema_insertada(
    s: Seq<Seq<Seq<char>>>,
    x: Seq<Seq<char>>,
    indice: int,
    descendente: bool,
    p: int,
)
    requires
        0 <= p <= s.len(),
        forall|k: int| p <= k < s.len() ==> va_antes(x, #[trigger] s[k], indice, descendente),
        p == 0 || !va_antes(x, s[p - 1], indice, descendente),
    ensures
        insertada(s, x, indice, descendente) == s.insert(p, x),
    decreases s.len() - p,
{
    if p == s.len() {
        assert(s.push(x) =~= s.insert(p, x));
    } else {
        let antes = s.drop_last();
        assert forall|k: int| p <= k < antes.len() implies va_antes(
            x,
            #[trigger] antes[k],
            indice,
            descendente,
        ) by {
            assert(antes[k] == s[k]);
        }
        if p > 0 {
            assert(antes[p - 1] == s[p - 1]);
        }
        lema_insertada(antes, x, indice, descendente, p);
        assert(antes.insert(p, x).push(s.last()) =~= s.insert(p, x));
    }
}

/// Tells whether the row `a` has its place before the row `b`.
fn comparar_filas(a: &Vec<String>, b: &Vec<String>, indice: usize, descendente: bool) -> (r: bool)
    requires
        indice < a.len(),
        indice < b.len(),
    ensures
        r == va_antes(vistas(a@), vistas(b@), indice as int, descendente),
{
    let clave_a = recortar(&caracteres(a[indice].as_str()));
    let clave_b = recortar(&caracteres(b[indice].as_str()));
    if descendente {
        es_menor(&clave_b, &clave_a)
    } else {
        es_menor(&clave_a, &clave_b)
    }
}

/// Puts rows in the order of their fields at position `indice`, keeping the
/// order of rows with the same key.
pub fn ordenar_filas(res: Vec<Vec<String>>, indice: usize, descendente: bool) -> (r: Vec<
    Vec<String>,
>)
    requires
        forall|k: int| 0 <= k < res.len() ==> indice < (#[trigger] res@[k]).len(),
    ensures
        filas(r@) == ordenadas(filas(res@), indice as int, descendente),
{
    let ghost todas = filas(res@);
    let mut pendientes = res;
    let mut hechas: Vec<Vec<String>> = Vec::new();
    let ghost mut n: int = 0;
    assert(todas.take(0) =~= Seq::empty());
    assert(filas(hechas@) =~= Seq::empty());
    assert(todas.skip(0) =~= todas);
    while pendientes.len() > 0
        invariant
            0 <= n <= todas.len(),
            todas == filas(res@),
            pendientes.len() == todas.len() - n,
            filas(pendientes@) == todas.skip(n),
            filas(hechas@) == ordenadas(todas.take(n), indice as int, descendente),
            forall|k: int| 0 <= k < pendientes.len() ==> indice < (#[trigger] pendientes@[k]).len(),
            forall|k: int| 0 <= k < hechas.len() ==> indice < (#[trigger] hechas@[k]).len(),
        decreases pendientes.len(),
    {
        let ghost antes = filas(pendientes@);
        let ghost viejas = pendientes@;
        let fila = pendientes.remove(0);
        proof {
            assert(fila == viejas[0]);
            assert(antes[0] == vistas(fila@));
            assert(todas[n] == vistas(fila@));
            assert forall|k: int| 0 <= k < pendientes.len() implies filas(pendientes@)[k]
                == todas.skip(n + 1)[k] by {
                assert(pendientes@[k] == viejas[k + 1]);
                assert(antes[k + 1] == vistas(viejas[k + 1]@));
                assert(todas.skip(n)[k + 1] == todas[n + k + 1]);
            }
            assert(filas(pendientes@) =~= todas.skip(n + 1));
            assert(todas.take(n + 1).drop_last() =~= todas.take(n));
            assert(todas.take(n + 1).last() == vistas(fila@));
            assert forall|k: int| 0 <= k < pendientes.len() implies indice < (
            #[trigger] pendientes@[k]).len() by {
                assert(pendientes@[k] == viejas[k + 1]);
            }
        }
        let mut p: usize = hechas.len();
        while p > 0 && comparar_filas(&fila, &hechas[p - 1], indice, descendente)
            invariant
                p <= hechas.len(),
                indice < fila.len(),
                forall|k: int| 0 <= k < hechas.len() ==> indice < (#[trigger] hechas@[k]).len(),
                forall|k: int|
                    p <= k < hechas.len() ==> va_antes(
                        vistas(fila@),
                        #[trigger] filas(hechas@)[k],
                        indice as int,
                        descendente,
                    ),
            decreases p,
        {
            p -= 1;
        }
        proof {
            lema_insertada(filas(hechas@), vistas(fila@), indice as int, descendente, p as int);
        }
        let ghost previas = filas(hechas@);
        let ghost hechas_antes = hechas@;
        hechas.insert(p, fila);
        proof {
            assert(filas(hechas@) =~= previas.insert(p as int, vistas(fila@)));
            assert forall|k: int| 0 <= k < hechas.len() implies indice < (
            #[trigger] hechas@[k]).len() by {
                if k < p {
                    assert(hechas@[k] == hechas_antes[k]);
                } else if k > p {
                    assert(hechas@[k] == hechas_antes[k - 1]);
                }
            }
            n = n + 1;
        }
    }
    assert(todas.take(n) =~= todas);
    hechas
}

/// The rows of a result in the order that an ordering asks for, given the
/// column that it names and the way, in upper case, that it gives. The way
/// must be `ASC` or `DESC`, and where there are two rows or more each must
/// reach the column; else the error is `Error`. A name that is no column is
/// a syntax error.
pub open spec fn ordenado_segun(
    res: Seq<Seq<Seq<char>>>,
    indices: Map<Seq<char>, usize>,
    columna: Seq<char>,
    modo: Seq<char>,
) -> Result<Seq<Seq<Seq<char>>>, Errores> {
    if indices.contains_key(columna) {
        let indice = indices[columna] as int;
        if modo != "ASC"@ && modo != "DESC"@ {
            Err(Errores::Error)
        } else if res.len() >= 2 && exists|k: int|
            0 <= k < res.len() && (#[trigger] res[k]).len() <= indice {
            Err(Errores::Error)
        } else {
            Ok(ordenadas(res, indice, modo == "DESC"@))
        }
    } else {
        Err(Errores::InvalidSyntax)
    }
}

/// One row alone is in order.
pub proof fn lema_ordenadas_pocas(s: Seq<Seq<Seq<char>>>, indice: int, descendente: bool)
    requires
        s.len() < 2,
    ensures
        ordenadas(s, indice, descendente) == s,
{
    if s.len() == 1 {
        assert(s.drop_last() =~= Seq::empty());
        assert(ordenadas(s.drop_last(), indice, descendente) =~= Seq::empty());
        assert(Seq::<Seq<Seq<char>>>::empty().push(s.last()) =~= s);
    } else {
        assert(s =~= Seq::empty());
    }
}

/// Puts the rows of a result in the order of the column `columna`, in the
/// way `modo`.
pub fn ordenar_segun(
    res: Vec<Vec<String>>,
    columnas: &StringHashMap<usize>,
    columna: &str,
    modo: &Vec<char>,
) -> (r: Result<Vec<Vec<String>>, Errores>)
    ensures
        es_lista_de_filas(r, ordenado_segun(filas(res@), columnas@, columna@, modo@)),
{
    let indice_columna = match columnas.get(columna) {
        Some(indice) => *indice,
        None => {
            return Err(Errores::InvalidSyntax);
        },
    };
    let ascendente = iguales(modo, &caracteres("ASC"));
    let descendente = iguales(modo, &caracteres("DESC"));
    if !ascendente && !descendente {
        return Err(Errores::Error);
    }
    if res.len() < 2 {
        proof {
            lema_ordenadas_pocas(filas(res@), indice_columna as int, descendente);
        }
        return Ok(res);
    }
    let mut k: usize = 0;
    while k < res.len()
        invariant
            k <= res.len(),
            res.len() >= 2,
            columnas@.contains_key(columna@),
            columnas@[columna@] == indice_columna,
            modo@ == "ASC"@ || modo@ == "DESC"@,
            forall|j: int| 0 <= j < k ==> indice_columna < (#[trigger] res@[j]).len(),
        decreases res.len() - k,
    {
        if res[k].len() <= indice_columna {
            assert(filas(res@)[k as int].len() <= indice_columna);
            return Err(Errores::Error);
        }
        k += 1;
    }
    assert forall|j: int| 0 <= j < res.len() implies !((#[trigger] filas(res@)[j]).len()
        <= indice_columna) by {
        assert(res@[j].len() > indice_columna);
    }
    Ok(ordenar_filas(res, indice_columna, descendente))
}

/// The rows that the lines of a result hold: the fields of each line.
pub open spec fn filas_de(lineas: Seq<Seq<char>>) -> Seq<Seq<Seq<char>>> {
    Seq::new(lineas.len(), |i: int| campos(lineas[i]))
}

/// The way of an ordering: the upper-case form of its second text, without
/// the semicolons at its end, and `ASC` where it has none.
pub open spec fn modo_de(orden: Seq<Seq<char>>) -> Seq<char> {
    if orden.len() >= 2 {
        sin_sufijos(mayusculas(orden[1]), seq![';'])
    } else {
        "ASC"@
    }
}

/// The rows of a result in the order that `orden` asks for: as they come
/// when it is empty, else by the column that its first text names, in the
/// way that its second text gives.
pub open spec fn resultado_ordenado(
    lineas: Seq<Seq<char>>,
    indices: Map<Seq<char>, usize>,
    orden: Seq<Seq<char>>,
) -> Result<Seq<Seq<Seq<char>>>, Errores> {
    if orden.len() == 0 {
        Ok(filas_de(lineas))
    } else {
        ordenado_segun(filas_de(lineas), indices, orden[0], modo_de(orden))
    }
}

/// Parts the lines of a result into rows and puts them in the order that
/// `clausula_order` asks for.
pub fn ordenar_resultado(
    resultado: Vec<String>,
    columnas: &StringHashMap<usize>,
    clausula_order: &Vec<String>,
) -> (r: Result<Vec<Vec<String>>, Errores>)
    ensures
        es_lista_de_filas(
            r,
            resultado_ordenado(vistas(resultado@), columnas@, vistas(clausula_order@)),
        ),
{
    let ghost lineas = vistas(resultado@);
    let mut res: Vec<Vec<String>> = Vec::new();
    let mut i: usize = 0;
    while i < resultado.len()
        invariant
            i <= resultado.len(),
            lineas == vistas(resultado@),
            res.len() == i,
            forall|k: int| 0 <= k < i ==> vistas((#[trigger] res@[k])@) == campos(lineas[k]),
        decreases resultado.len() - i,
    {
        assert(lineas[i as int] == resultado@[i as int]@);
        res.push(separar_campos(resultado[i].as_str()));
        i += 1;
    }
    assert(filas(res@) =~= filas_de(lineas));
    if clausula_order.len() == 0 {
        return Ok(res);
    }
    let ghost orden = vistas(clausula_order@);
    assert(orden[0] == clausula_order@[0]@);
    let modo_ordenamiento: Vec<char> = if clausula_order.len() >= 2 {
        assert(orden[1] == clausula_order@[1]@);
        let mayus = pasar_a_mayusculas(clausula_order[1].as_str());
        quitar_finales(&caracteres(mayus.as_str()), ';')
    } else {
        caracteres("ASC")
    };
    ordenar_segun(res, columnas, clausula_order[0].as_str(), &modo_ordenamiento)
}

/// The fields of a row that a list of names picks, in the order of the
/// names: for each name that, without the white space around it, is a column
/// that the row reaches, the field of that column.
pub open spec fn proyeccion(
    fila: Seq<Seq<char>>,
    nombres: Seq<Seq<char>>,
    indices: Map<Seq<char>, usize>,
) -> Seq<Seq<char>>
    decreases nombres.len(),
{
    if nombres.len() == 0 {
        Seq::empty()
    } else {
        let antes = proyeccion(fila, nombres.drop_last(), indices);
        let nombre = recortado(nombres.last());
        if indices.contains_key(nombre) && indices[nombre] < fila.len() {
            antes.push(fila[indices[nombre] as int])
        } else {
            antes
        }
    }
}

/// Whether a list of names is the lone asterisk, which stands for every
/// column.
pub open spec fn es_todo(nombres: Seq<Seq<char>>) -> bool {
    nombres == seq![seq!['*']]
}

/// The line that shows one row of a result: the fields that `nombres` picks,
/// or all of them when `nombres` is the asterisk, joined by commas.
pub open spec fn fila_mostrada(
    fila: Seq<Seq<char>>,
    nombres: Seq<Seq<char>>,
    indices: Map<Seq<char>, usize>,
) -> Seq<char> {
    if es_todo(nombres) {
        unido(fila, seq![','])
    } else {
        unido(proyeccion(fila, nombres, indices), seq![','])
    }
}

/// The lines that show a result: a line of names, which are those of the
/// columns when `nombres` is the asterisk and those of `nombres` otherwise,
/// and after it one line for each row.
pub open spec fn mostrado(
    res: Seq<Seq<Seq<char>>>,
    columnas: Seq<Seq<char>>,
    nombres: Seq<Seq<char>>,
    indices: Map<Seq<char>, usize>,
) -> Seq<Seq<char>> {
    seq![
        unido(
            if es_todo(nombres) {
                columnas
            } else {
                nombres
            },
            seq![','],
        ),
    ] + Seq::new(res.len(), |k: int| fila_mostrada(res[k], nombres, indices))
}

/// Picks from a row the fields that `campos` names.
fn proyectar(fila: &Vec<String>, campos: &Vec<String>, indice_columnas: &StringHashMap<usize>)
    -> (r: Vec<String>)
    ensures
        vistas(r@) == proyeccion(vistas(fila@), vistas(campos@), indice_columnas@),
{
    let ghost nombres = vistas(campos@);
    let mut r: Vec<String> = Vec::new();
    let mut i: usize = 0;
    assert(nombres.take(0) =~= Seq::empty());
    assert(vistas(r@) =~= Seq::empty());
    while i < campos.len()
        invariant
            i <= campos.len(),
            nombres == vistas(campos@),
            vistas(r@) == proyeccion(vistas(fila@), nombres.take(i as int), indice_columnas@),
        decreases campos.len() - i,
    {
        proof {
            assert(nombres.take(i + 1).drop_last() =~= nombres.take(i as int));
            assert(nombres.take(i + 1).last() == campos@[i as int]@);
        }
        let nombre = cadena(&recortar(&caracteres(campos[i].as_str())));
        match indice_columnas.get(nombre.as_str()) {
            Some(indice) => {
                if *indice < fila.len() {
                    let valor = fila[*indice].clone();
                    proof {
                        assert(vistas(fila@)[*indice as int] == valor@);
                        lema_vistas_push(r@, valor);
                    }
                    r.push(valor);
                }
            },
            None => {},
        }
        i += 1;
    }
    assert(nombres.take(campos.len() as int) =~= nombres);
    r
}

/// Gives the lines that show a result.
pub fn mostrar_resultado(
    res: &Vec<Vec<String>>,
    columnas: &Vec<String>,
    campos: &Vec<String>,
    indice_columnas: &StringHashMap<usize>,
) -> (r: Vec<String>)
    ensures
        vistas(r@) == mostrado(filas(res@), vistas(columnas@), vistas(campos@), indice_columnas@),
{
    let ghost nombres = vistas(campos@);
    let ghost todas = filas(res@);
    let todo = campos.len() == 1 && {
        let unico = caracteres(campos[0].as_str());
        unico.len() == 1 && unico[0] == '*'
    };
    proof {
        let estrella = seq![seq!['*']];
        assert(estrella.len() == 1 && estrella[0].len() == 1 && estrella[0][0] == '*');
        if todo {
            assert(nombres[0] =~= seq!['*']);
            assert(nombres =~= estrella);
        } else if nombres == estrella {
            assert(nombres[0] == campos@[0]@);
        }
    }
    let mut r: Vec<String> = Vec::new();
    if todo {
        r.push(unir_campos(columnas));
    } else {
        r.push(unir_campos(campos));
    }
    let mut k: usize = 0;
    while k < res.len()
        invariant
            k <= res.len(),
            nombres == vistas(campos@),
            todas == filas(res@),
            todo == es_todo(nombres),
            r.len() == k + 1,
            r@[0]@ == unido(
                if es_todo(nombres) {
                    vistas(columnas@)
                } else {
                    nombres
                },
                seq![','],
            ),
            forall|j: int|
                0 <= j < k ==> (#[trigger] r@[j + 1])@ == fila_mostrada(
                    todas[j],
                    nombres,
                    indice_columnas@,
                ),
        decreases res.len() - k,
    {
        assert(todas[k as int] == vistas(res@[k as int]@));
        if todo {
            r.push(unir_campos(&res[k]));
        } else {
            let fila = proyectar(&res[k], campos, indice_columnas);
            r.push(unir_campos(&fila));
        }
        k += 1;
    }
    assert(vistas(r@) =~= mostrado(todas, vistas(columnas@), nombres, indice_columnas@)) by {
        let m = mostrado(todas, vistas(columnas@), nombres, indice_columnas@);
        assert(m.len() == r.len());
        assert forall|j: int| 0 <= j < r.len() implies vistas(r@)[j] == m[j] by {
            if j > 0 {
                assert(r@[(j - 1) + 1]@ == fila_mostrada(todas[j - 1], nombres, indice_columnas@));
            }
        }
    }
    r
}

/// The predicate "meets the clause `a` in a table with the columns
/// `columnas`".
pub open spec fn si_cumple(a: Arbol, columnas: Seq<Seq<char>>) -> spec_fn(Seq<char>) -> bool {
    |linea: Seq<char>| cumple(linea, a, indices_de(columnas))
}

/// The lines that show the rows of a table that meet the clause `a`, given
/// the lines of its file or nothing when the file could not be read: the
/// rows that meet the clause are put in the order that `orden` asks for and
/// shown with the fields that `nombres` picks. It fails with `Error` when
/// there is no first line, and with a syntax error when the rows cannot be
/// ordered.
pub open spec fn seleccionado(
    tabla: Option<Seq<Seq<char>>>,
    a: Arbol,
    orden: Seq<Seq<char>>,
    nombres: Seq<Seq<char>>,
) -> Result<Seq<Seq<char>>, Errores> {
    match tabla {
        None => Err(Errores::Error),
        Some(lineas) => if lineas.len() == 0 {
            Err(Errores::Error)
        } else {
            let columnas = encabezado(lineas);
            let indices = indices_de(columnas);
            let elegidas = filtrado(lineas.drop_first(), si_cumple(a, columnas));
            match resultado_ordenado(elegidas, indices, orden) {
                Ok(res) => Ok(mostrado(res, columnas, nombres, indices)),
                Err(_) => Err(Errores::InvalidSyntax),
            }
        },
    }
}

/// Gives the lines that show the rows of a table that meet
/// `clausula_where`.
pub fn procesar_archivo_select(
    tabla: Option<&Vec<String>>,
    clausula_where: &Expresion,
    clausula_order: &Vec<String>,
    campos: &Vec<String>,
) -> (r: Result<Vec<String>, Errores>)
    ensures
        es_lista_de_lineas(
            r,
            seleccionado(
                lectura(tabla),
                clausula_where@,
                vistas(clausula_order@),
                vistas(campos@),
            ),
        ),
{
    let lineas = match tabla {
        Some(lineas) => lineas,
        None => {
            return Err(Errores::Error);
        },
    };
    if lineas.len() == 0 {
        return Err(Errores::Error);
    }
    let columnas: Vec<String> = leer_encabezado(lineas);
    let indice_columnas = obtener_indices_columnas(columnas.as_slice());
    let ghost todas = vistas(lineas@);
    let ghost cols = vistas(columnas@);
    let ghost viejas = todas.drop_first();
    let mut resultado: Vec<String> = Vec::new();
    let mut i: usize = 1;
    assert(viejas.take(0) =~= Seq::empty());
    assert(vistas(resultado@) =~= Seq::empty());
    while i < lineas.len()
        invariant
            1 <= i <= lineas.len(),
            todas == vistas(lineas@),
            viejas == todas.drop_first(),
            cols == encabezado(todas),
            indice_columnas@ == indices_de(cols),
            vistas(resultado@) == filtrado(viejas.take(i - 1), si_cumple(clausula_where@, cols)),
        decreases lineas.len() - i,
    {
        let linea = &lineas[i];
        proof {
            assert(viejas.take(i as int).drop_last() =~= viejas.take(i - 1));
            assert(viejas.take(i as int).last() == linea@);
        }
        let acepta = match cumple_c_w(linea.as_str(), clausula_where, &indice_columnas) {
            Ok(boolean) => boolean,
            Err(_) => {
                return Err(Errores::InvalidSyntax);
            },
        };
        if acepta {
            let copia = linea.clone();
            proof {
                lema_vistas_push(resultado@, copia);
            }
            resultado.push(copia);
        }
        i += 1;
    }
    assert(viejas.take(lineas.len() - 1) =~= viejas);
    let resultado_ordenado = match ordenar_resultado(resultado, &indice_columnas, clausula_order) {
        Ok(r) => r,
        Err(_e) => {
            return Err(Errores::InvalidSyntax);
        },
    };
    Ok(mostrar_resultado(&resultado_ordenado, &columnas, campos, &indice_columnas))
}

/// What running a `SELECT` does, given the lines of the file of its table or
/// nothing when the file could not be read: the rows that meet its clause
/// are shown. It fails with a syntax error on any other query, when the
/// clause does not compile and when the rows cannot be ordered, and with
/// `Error` when the file holds no line.
pub open spec fn select_ejecutado(c: Consulta, tabla: Option<Seq<Seq<char>>>) -> Result<
    Cambio,
    Errores,
> {
    match c {
        Consulta::Select { campos, tabla: _, clausula_where, clausula_order } => {
            match where_compilado(clausula_where) {
                Err(e) => Err(e),
                Ok(a) => match seleccionado(tabla, a, clausula_order, campos) {
                    Ok(l) => Ok(Cambio::Mostrar(l)),
                    Err(e) => Err(e),
                },
            }
        },
        _ => Err(Errores::InvalidSyntax),
    }
}

/// Runs a `SELECT` on a table whose file holds the lines of `tabla`, and
/// gives the lines to show.
pub fn ejecutar_select(comando: &Comandos, tabla: Option<&Vec<String>>) -> (r: Result<
    Efecto,
    Errores,
>)
    ensures
        es_efecto(r, select_ejecutado(comando@, lectura(tabla))),
{
    let (campos, clausula_where, clausula_order) = match comando {
        Comandos::Select { campos, tabla: _, clausula_where, clausula_order } => (
            campos,
            clausula_where,
            clausula_order,
        ),
        _ => {
            return Err(Errores::InvalidSyntax);
        },
    };
    let adaptada: Expresion = match compilar_where(clausula_where.as_str()) {
        Ok(a) => a,
        Err(e) => {
            return Err(e);
        },
    };
    match procesar_archivo_select(tabla, &adaptada, clausula_order, campos) {
        Ok(lineas) => Ok(Efecto::Mostrar(lineas)),
        Err(e) => Err(e),
    }
}

} // verus!
