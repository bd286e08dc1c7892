//! Running an `INSERT`: the rows that it adds to a table.

use crate::comandos::comandos_implementacion::{Comandos, Consulta};
use crate::ejecutor::ejecutor_implementacion::{
    es_efecto, lectura, limpiar_lista, lista_limpia, Cambio, Efecto,
};
use crate::errores::errores_implementacion::Errores;
use crate::texto::{
    buscar, cadena, caracteres, lema_vistas_push, partido, partir, posicion_de, quitar_finales,
    quitar_iniciales, recortar_caracteres, sin_extremos, sin_prefijos, sin_sufijos, textos,
    unido, unir, uno_de, vistas,
};
use vstd::prelude::*;

verus! {

/// What a list of rows stands for: the texts of each row.
pub open spec fn filas(v: Seq<Vec<String>>) -> Seq<Seq<Seq<char>>> {
    Seq::new(v.len(), |i: int| vistas(v[i]@))
}

/// Adding one row to a list adds its texts to what the list stands for.
pub proof fn lema_filas_push(v: Seq<Vec<String>>, x: Vec<String>)
    ensures
        filas(v.push(x)) == filas(v).push(vistas(x@)),
{
    assert(filas(v.push(x)) =~= filas(v).push(vistas(x@)));
}

/// Whether every row has as many values as the first one.
pub open spec fn mismo_largo(lista: Seq<Seq<Seq<char>>>) -> bool {
    forall|i: int| 0 <= i < lista.len() ==> (#[trigger] lista[i]).len() == lista[0].len()
}

/// Tells whether every row has as many values as the first one.
pub fn misma_len(lista: &Vec<Vec<String>>) -> (r: bool)
    ensures
        r == mismo_largo(filas(lista@)),
{
    if lista.len() == 0 {
        return true;
    }
    let len = lista[0].len();
    let mut i: usize = 0;
    while i < lista.len()
        invariant
            i <= lista.len(),
            lista.len() > 0,
            len == lista@[0].len(),
            forall|k: int| 0 <= k < i ==> (#[trigger] filas(lista@)[k]).len() == len,
        decreases lista.len() - i,
    {
        if lista[i].len() != len {
            assert(filas(lista@)[i as int].len() != filas(lista@)[0].len());
            return false;
        }
        i += 1;
    }
    true
}

/// The rows that a run of values makes when each row takes `tam` of them:
/// what is left over at the end, short of a row, is dropped.
pub open spec fn grupos(s: Seq<Seq<char>>, tam: nat) -> Seq<Seq<Seq<char>>>
    decreases s.len(),
{
    if tam == 0 || s.len() < tam {
        Seq::empty()
    } else {
        seq![s.take(tam as int)] + grupos(s.skip(tam as int), tam)
    }
}

/// The first value of each list.
pub open spec fn primeros(v: Seq<Seq<Seq<char>>>) -> Seq<Seq<char>> {
    Seq::new(v.len(), |i: int| v[i][0])
}

/// Makes rows of `tam` values each out of the first value of each list.
pub fn juntar_valores(valores_limpia: &Vec<Vec<String>>, tam: usize) -> (r: Vec<Vec<String>>)
    requires
        tam > 0 || valores_limpia.len() == 0,
        forall|i: int| 0 <= i < valores_limpia.len() ==> (#[trigger] valores_limpia@[i]).len() > 0,
    ensures
        filas(r@) == grupos(primeros(filas(valores_limpia@)), tam as nat),
{
    let ghost todos = primeros(filas(valores_limpia@));
    let mut resultado: Vec<Vec<String>> = Vec::new();
    let mut grupo_actual: Vec<String> = Vec::new();
    let ghost mut inicio: int = 0;
    let mut i: usize = 0;
    assert(filas(resultado@) =~= Seq::empty());
    assert(todos.skip(0) =~= todos);
    assert(filas(resultado@) + grupos(todos, tam as nat) =~= grupos(todos, tam as nat));
    assert(vistas(grupo_actual@) =~= todos.subrange(0, 0));
    while i < valores_limpia.len()
        invariant
            i <= valores_limpia.len(),
            tam > 0 || valores_limpia.len() == 0,
            forall|k: int|
                0 <= k < valores_limpia.len() ==> (#[trigger] valores_limpia@[k]).len() > 0,
            todos == primeros(filas(valores_limpia@)),
            0 <= inicio <= i,
            tam > 0 ==> i - inicio < tam,
            vistas(grupo_actual@) == todos.subrange(inicio, i as int),
            grupos(todos, tam as nat) == filas(resultado@) + grupos(todos.skip(inicio), tam as nat),
        decreases valores_limpia.len() - i,
    {
        let sub_lista = &valores_limpia[i];
        assert(valores_limpia@[i as int].len() > 0);
        let elemento = sub_lista[0].clone();
        proof {
            assert(todos[i as int] == elemento@);
            lema_vistas_push(grupo_actual@, elemento);
            assert(todos.subrange(inicio, i as int).push(elemento@) =~= todos.subrange(
                inicio,
                i + 1,
            ));
        }
        grupo_actual.push(elemento);
        if grupo_actual.len() == tam {
            proof {
                let resto = todos.skip(inicio);
                assert(resto.take(tam as int) =~= todos.subrange(inicio, i + 1));
                assert(resto.skip(tam as int) =~= todos.skip(i + 1));
                lema_filas_push(resultado@, grupo_actual);
                assert(filas(resultado@) + (seq![vistas(grupo_actual@)] + grupos(
                    todos.skip(i + 1),
                    tam as nat,
                )) =~= filas(resultado@).push(vistas(grupo_actual@)) + grupos(
                    todos.skip(i + 1),
                    tam as nat,
                ));
                inicio = i + 1;
            }
            resultado.push(grupo_actual);
            grupo_actual = Vec::new();
            assert(vistas(grupo_actual@) =~= todos.subrange(i + 1, i + 1));
        }
        i += 1;
    }
    assert(filas(resultado@) + grupos(todos.skip(inicio), tam as nat) =~= filas(resultado@));
    resultado
}

/// The row that the values of `valor` make in a table with the columns
/// `columnas`, when they are set from position `i` of `into` on and `linea`
/// holds what has been set so far. The name at a position of `into`, without
/// the parentheses and spaces around it, tells the column that takes the
/// value at the same position of `valor`, or the empty text where `valor` is
/// too short; a later value for a column replaces an earlier one. An error
/// where a name is no column.
pub open spec fn linea_desde(
    columnas: Seq<Seq<char>>,
    into: Seq<Seq<char>>,
    valor: Seq<Seq<char>>,
    i: int,
    linea: Seq<Seq<char>>,
) -> Result<Seq<Seq<char>>, Errores>
    decreases into.len() - i,
{
    if i < 0 || i >= into.len() {
        Ok(linea)
    } else {
        match posicion_de(columnas, sin_extremos(into[i], uno_de(seq!['(', ')', ' ']))) {
            Some(p) => linea_desde(
                columnas,
                into,
                valor,
                i + 1,
                linea.update(
                    p,
                    if i < valor.len() {
                        valor[i]
                    } else {
                        Seq::empty()
                    },
                ),
            ),
            None => Err(Errores::InvalidSyntax),
        }
    }
}

/// Making a row fails with a syntax error only.
pub proof fn lema_error_de_linea(
    columnas: Seq<Seq<char>>,
    into: Seq<Seq<char>>,
    valor: Seq<Seq<char>>,
    i: int,
    linea: Seq<Seq<char>>,
)
    ensures
        linea_desde(columnas, into, valor, i, linea) is Err ==> linea_desde(
            columnas,
            into,
            valor,
            i,
            linea,
        ) == Err::<Seq<Seq<char>>, Errores>(Errores::InvalidSyntax),
    decreases into.len() - i,
{
    if 0 <= i < into.len() {
        match posicion_de(columnas, sin_extremos(into[i], uno_de(seq!['(', ')', ' ']))) {
            Some(p) => {
                lema_error_de_linea(
                    columnas,
                    into,
                    valor,
                    i + 1,
                    linea.update(
                        p,
                        if i < valor.len() {
                            valor[i]
                        } else {
                            Seq::empty()
                        },
                    ),
                );
            },
            None => {},
        }
    }
}

/// The row that the values of `valor` make in a table with the columns
/// `columnas`: a column that `into` does not name holds the empty text.
pub open spec fn linea_nueva(
    columnas: Seq<Seq<char>>,
    into: Seq<Seq<char>>,
    valor: Seq<Seq<char>>,
) -> Result<Seq<Seq<char>>, Errores> {
    linea_desde(columnas, into, valor, 0, Seq::new(columnas.len(), |k: int| Seq::empty()))
}

/// The rows that lists of values make in a table, one for each list; an
/// error when one of them fails.
pub open spec fn lineas_nuevas(
    columnas: Seq<Seq<char>>,
    into: Seq<Seq<char>>,
    valores: Seq<Seq<Seq<char>>>,
) -> Result<Seq<Seq<Seq<char>>>, Errores> {
    if forall|k: int|
        0 <= k < valores.len() ==> (#[trigger] linea_nueva(columnas, into, valores[k])) is Ok {
        Ok(Seq::new(valores.len(), |k: int| linea_nueva(columnas, into, valores[k])->Ok_0))
    } else {
        Err(Errores::InvalidSyntax)
    }
}

/// Whether a list of rows is the outcome `m`: the same error, or rows with
/// those texts.
pub open spec fn es_lista_de_filas(
    r: Result<Vec<Vec<String>>, Errores>,
    m: Result<Seq<Seq<Seq<char>>>, Errores>,
) -> bool {
    match m {
        Ok(f) => r is Ok && filas(r->Ok_0@) == f,
        Err(e) => r == Err::<Vec<Vec<String>>, Errores>(e),
    }
}

/// Makes the row that the values of `valor` give in a table with the columns
/// `columnas`.
fn obtener_una_linea(columnas: &Vec<Vec<char>>, into: &Vec<String>, valor: &Vec<String>) -> (r:
    Result<Vec<String>, Errores>)
    ensures
        match linea_nueva(vistas(columnas@), vistas(into@), vistas(valor@)) {
            Ok(l) => r is Ok && vistas(r->Ok_0@) == l,
            Err(e) => r == Err::<Vec<String>, Errores>(e),
        },
{
    let ghost cols = vistas(columnas@);
    let ghost nombres = vistas(into@);
    let ghost valores = vistas(valor@);
    let mut linea_actual: Vec<String> = Vec::new();
    let mut k: usize = 0;
    while k < columnas.len()
        invariant
            k <= columnas.len(),
            linea_actual.len() == k,
            forall|j: int| 0 <= j < k ==> (#[trigger] linea_actual@[j])@ == Seq::<char>::empty(),
        decreases columnas.len() - k,
    {
        linea_actual.push(String::new());
        k += 1;
    }
    assert(vistas(linea_actual@) =~= Seq::new(cols.len(), |k: int| Seq::<char>::empty()));
    let mut fuera: Vec<char> = Vec::new();
    fuera.push('(');
    fuera.push(')');
    fuera.push(' ');
    assert(fuera@ =~= seq!['(', ')', ' ']);
    let mut i: usize = 0;
    while i < into.len()
        invariant
            i <= into.len(),
            cols == vistas(columnas@),
            nombres == vistas(into@),
            valores == vistas(valor@),
            fuera@ == seq!['(', ')', ' '],
            linea_actual.len() == columnas.len(),
            linea_nueva(cols, nombres, valores) == linea_desde(
                cols,
                nombres,
                valores,
                i as int,
                vistas(linea_actual@),
            ),
        decreases into.len() - i,
    {
        let columna_limpia = recortar_caracteres(&caracteres(into[i].as_str()), &fuera);
        assert(nombres[i as int] == into@[i as int]@);
        match buscar(columnas, &columna_limpia) {
            Some(indice) => {
                let ghost antes = vistas(linea_actual@);
                let nuevo = if i < valor.len() {
                    assert(valores[i as int] == valor@[i as int]@);
                    valor[i].clone()
                } else {
                    String::new()
                };
                linea_actual.set(indice, nuevo);
                assert(vistas(linea_actual@) =~= antes.update(indice as int, nuevo@));
            },
            None => {
                return Err(Errores::InvalidSyntax);
            },
        }
        i += 1;
    }
    Ok(linea_actual)
}

/// Makes the rows to add to a table with the columns `columnas`, one for
/// each list of `valores`, setting the columns that `into` names.
pub fn obtener_linea_a_escribir(
    columnas: &Vec<String>,
    into: &Vec<String>,
    valores: &Vec<Vec<String>>,
) -> (r: Result<Vec<Vec<String>>, Errores>)
    ensures
        es_lista_de_filas(r, lineas_nuevas(vistas(columnas@), vistas(into@), filas(valores@))),
{
    let nombres = textos(columnas);
    let ghost cols = vistas(columnas@);
    let ghost todos = filas(valores@);
    let mut lineas: Vec<Vec<String>> = Vec::new();
    let mut k: usize = 0;
    while k < valores.len()
        invariant
            k <= valores.len(),
            cols == vistas(columnas@),
            cols == vistas(nombres@),
            todos == filas(valores@),
            lineas.len() == k,
            forall|j: int|
                0 <= j < k ==> (#[trigger] linea_nueva(cols, vistas(into@), todos[j])) == Ok::<
                    Seq<Seq<char>>,
                    Errores,
                >(vistas(lineas@[j]@)),
        decreases valores.len() - k,
    {
        assert(todos[k as int] == vistas(valores@[k as int]@));
        match obtener_una_linea(&nombres, into, &valores[k]) {
            Ok(linea_actual) => {
                lineas.push(linea_actual);
            },
            Err(e) => {
                proof {
                    lema_error_de_linea(
                        cols,
                        vistas(into@),
                        todos[k as int],
                        0,
                        Seq::new(cols.len(), |k: int| Seq::empty()),
                    );
                }
                assert(linea_nueva(cols, vistas(into@), todos[k as int]) is Err);
                return Err(e);
            },
        }
        k += 1;
    }
    assert(filas(lineas@) =~= lineas_nuevas(cols, vistas(into@), todos)->Ok_0);
    Ok(lineas)
}

/// The lines that an insertion adds to a table, given the lines of its file
/// or nothing when the file could not be read. The first line of the file
/// holds the names of the columns, between commas. It fails when there is no
/// such line, when `into` names more columns than the table has, when there
/// is no row to add, when the rows differ in length or have not one value
/// for each name of `into`, and when a name of `into` is no column.
pub open spec fn insertado(
    tabla: Option<Seq<Seq<char>>>,
    into: Seq<Seq<char>>,
    valores: Seq<Seq<Seq<char>>>,
) -> Result<Seq<Seq<char>>, Errores> {
    match tabla {
        None => Err(Errores::Error),
        Some(lineas) => if lineas.len() == 0 {
            Err(Errores::Error)
        } else {
            let columnas = partido(lineas[0], ',');
            if columnas.len() < into.len() || !mismo_largo(valores) || valores.len() == 0
                || into.len() != valores[0].len() {
                Err(Errores::Error)
            } else {
                match lineas_nuevas(columnas, into, valores) {
                    Ok(f) => Ok(Seq::new(f.len(), |k: int| unido(f[k], seq![',']))),
                    Err(_) => Err(Errores::Error),
                }
            }
        },
    }
}

/// Whether a list of lines is the outcome `m`: the same error, or lines with
/// those texts.
pub open spec fn es_lista_de_lineas(
    r: Result<Vec<String>, Errores>,
    m: Result<Seq<Seq<char>>, Errores>,
) -> bool {
    match m {
        Ok(l) => r is Ok && vistas(r->Ok_0@) == l,
        Err(e) => r == Err::<Vec<String>, Errores>(e),
    }
}

/// The text that holds one comma.
pub fn coma() -> (r: Vec<char>)
    ensures
        r@ == seq![','],
{
    let mut r: Vec<char> = Vec::new();
    r.push(',');
    assert(r@ =~= seq![',']);
    r
}

/// Joins the fields of a row with commas.
pub fn unir_campos(fila: &Vec<String>) -> (r: String)
    ensures
        r@ == unido(vistas(fila@), seq![',']),
{
    let sep = coma();
    cadena(&unir(&textos(fila), &sep))
}

/// Gives the lines that an insertion adds to a table whose file holds the
/// lines of `tabla`.
pub fn procesar_archivo_insert(
    tabla: Option<&Vec<String>>,
    into: &Vec<String>,
    valores: &Vec<Vec<String>>,
) -> (r: Result<Vec<String>, Errores>)
    ensures
        es_lista_de_lineas(r, insertado(lectura(tabla), vistas(into@), filas(valores@))),
{
    let lineas = match tabla {
        Some(lineas) => lineas,
        None => {
            return Err(Errores::Error);
        },
    };
    if lineas.len() == 0 {
        return Err(Errores::Error);
    }
    let columnas = crate::texto::cadenas(&partir(&caracteres(lineas[0].as_str()), ','));
    assert(vistas(lineas@)[0] == lineas@[0]@);
    if columnas.len() < into.len() || !misma_len(valores) || valores.len() == 0 {
        return Err(Errores::Error);
    }
    assert(filas(valores@)[0].len() == valores@[0].len());
    if into.len() != valores[0].len() {
        return Err(Errores::Error);
    }
    let linea_nueva: Vec<Vec<String>> = match obtener_linea_a_escribir(&columnas, into, valores) {
        Ok(linea) => linea,
        Err(_e) => {
            return Err(Errores::Error);
        },
    };
    let ghost f = filas(linea_nueva@);
    let mut r: Vec<String> = Vec::new();
    let mut k: usize = 0;
    while k < linea_nueva.len()
        invariant
            k <= linea_nueva.len(),
            f == filas(linea_nueva@),
            r.len() == k,
            forall|j: int| 0 <= j < k ==> (#[trigger] r@[j])@ == unido(f[j], seq![',']),
        decreases linea_nueva.len() - k,
    {
        assert(f[k as int] == vistas(linea_nueva@[k as int]@));
        r.push(unir_campos(&linea_nueva[k]));
        k += 1;
    }
    assert(vistas(r@) =~= Seq::new(f.len(), |k: int| unido(f[k], seq![','])));
    Ok(r)
}

/// The name of a column as an insertion gives it, without the parentheses
/// and the comma that the list of names wraps it in.
pub open spec fn nombre_limpio(nombre: Seq<char>) -> Seq<char> {
    sin_sufijos(sin_sufijos(sin_prefijos(nombre, seq!['(']), seq![')']), seq![','])
}

/// Each text of `valores` read as a list of values.
pub open spec fn listas_limpias(valores: Seq<Seq<char>>) -> Seq<Seq<Seq<char>>> {
    Seq::new(valores.len(), |i: int| lista_limpia(valores[i]))
}

/// Each name of `into` without what wraps it.
pub open spec fn nombres_limpios(into: Seq<Seq<char>>) -> Seq<Seq<char>> {
    Seq::new(into.len(), |i: int| nombre_limpio(into[i]))
}

/// What running an `INSERT` does to a table, given the lines of its file or
/// nothing when the file could not be read. Each text of `valores` is read
/// as a list of values, of which the first counts; these values make rows of
/// as many as `into` has names, and the rows are inserted under the names of
/// `into`. It fails, with `Error`, on any other query, when a text of
/// `valores` holds no value, when there are values and no names, and when
/// the insertion fails.
pub open spec fn insert_ejecutado(c: Consulta, tabla: Option<Seq<Seq<char>>>) -> Result<
    Cambio,
    Errores,
> {
    match c {
        Consulta::Insert { tabla: _, into, valores } => {
            let limpias = listas_limpias(valores);
            if exists|i: int| 0 <= i < limpias.len() && (#[trigger] limpias[i]).len() == 0 {
                Err(Errores::Error)
            } else if into.len() == 0 && valores.len() > 0 {
                Err(Errores::Error)
            } else {
                match insertado(
                    tabla,
                    nombres_limpios(into),
                    grupos(primeros(limpias), into.len()),
                ) {
                    Ok(l) => Ok(Cambio::Agregar(l)),
                    Err(e) => Err(e),
                }
            }
        },
        _ => Err(Errores::Error),
    }
}

/// Runs an `INSERT` on a table whose file holds the lines of `tabla`, and
/// gives the lines to add at the end of the file.
pub fn ejecutar_insert(comando: &Comandos, tabla: Option<&Vec<String>>) -> (r: Result<
    Efecto,
    Errores,
>)
    ensures
        es_efecto(r, insert_ejecutado(comando@, lectura(tabla))),
{
    let (nombre, into, valores) = match comando {
        Comandos::Insert { tabla: nombre, into, valores } => (nombre, into, valores),
        _ => {
            return Err(Errores::Error);
        },
    };
    let ghost limpias = listas_limpias(vistas(valores@));
    let mut valores_limpia: Vec<Vec<String>> = Vec::new();
    let mut i: usize = 0;
    while i < valores.len()
        invariant
            i <= valores.len(),
            valores_limpia.len() == i,
            limpias == listas_limpias(vistas(valores@)),
            comando@ == (Consulta::Insert {
                tabla: nombre@,
                into: vistas(into@),
                valores: vistas(valores@),
            }),
            forall|k: int| 0 <= k < i ==> vistas((#[trigger] valores_limpia@[k])@) == limpias[k],
            forall|k: int| 0 <= k < i ==> (#[trigger] limpias[k]).len() > 0,
        decreases valores.len() - i,
    {
        let resultado: Vec<String> = limpiar_lista(valores[i].as_str());
        assert(vistas(valores@)[i as int] == valores@[i as int]@);
        if resultado.len() == 0 {
            assert(limpias[i as int].len() == 0);
            return Err(Errores::Error);
        }
        valores_limpia.push(resultado);
        i += 1;
    }
    if into.len() == 0 && valores.len() > 0 {
        return Err(Errores::Error);
    }
    assert(filas(valores_limpia@) =~= limpias);
    assert forall|k: int| 0 <= k < valores_limpia.len() implies (
    #[trigger] valores_limpia@[k]).len() > 0 by {
        assert(limpias[k].len() > 0);
    }
    let valores_final: Vec<Vec<String>> = juntar_valores(&valores_limpia, into.len());
    let mut into_final: Vec<String> = Vec::new();
    let mut j: usize = 0;
    while j < into.len()
        invariant
            j <= into.len(),
            into_final.len() == j,
            forall|k: int| 0 <= k < j ==> (#[trigger] into_final@[k])@ == nombre_limpio(into@[k]@),
        decreases into.len() - j,
    {
        let nombre = caracteres(into[j].as_str());
        let limpio = quitar_finales(&quitar_finales(&quitar_iniciales(&nombre, '('), ')'), ',');
        into_final.push(cadena(&limpio));
        j += 1;
    }
    assert(vistas(into_final@) =~= nombres_limpios(vistas(into@)));
    match procesar_archivo_insert(tabla, &into_final, &valores_final) {
        Ok(lineas) => Ok(Efecto::Agregar(lineas)),
        Err(e) => Err(e),
    }
}

} // verus!
