//! What holds of reading a clause and of running a query, whatever the
//! clause and the table.

use crate::analizador::analizador_implementacion::{cumple, operador_de};
use crate::analizador::expresion::Arbol;
use crate::ejecutor::ejecutor_delete::{borrado, no_cumple};
use crate::ejecutor::ejecutor_implementacion::{
    con_token_cerrado, condiciones_unidas, encabezado, indices_de, tokens_de, tokens_desde,
};
use crate::ejecutor::ejecutor_select::{clave, insertada, lema_insertada, ordenadas, va_antes};
use crate::texto::{
    es_espacio, filtrado, lema_no_precede_transitiva, lema_partir_y_unir, lema_precede_asimetrica,
    lema_unido_con_primero, unido,
};
use vstd::prelude::*;

verus! {

/// Quoting: while a single quote is open, every character up to the next
/// single quote goes to the token in progress, white space, parentheses and
/// operators among them, and closes no token.
pub proof fn ley_comillas(
    s: Seq<char>,
    i: int,
    j: int,
    hechos: Seq<Seq<char>>,
    token: Seq<char>,
)
    requires
        0 <= i <= j <= s.len(),
        forall|k: int| i <= k < j ==> s[k] != '\'',
    ensures
        tokens_desde(s, i, hechos, token, true) == tokens_desde(
            s,
            j,
            hechos,
            token + s.subrange(i, j),
            true,
        ),
    decreases j - i,
{
    if i < j {
        ley_comillas(s, i + 1, j, hechos, token.push(s[i]));
        assert(token.push(s[i]) + s.subrange(i + 1, j) =~= token + s.subrange(i, j));
    } else {
        assert(token + s.subrange(i, j) =~= token);
    }
}

/// Quoting: a text between single quotes that holds no single quote is one
/// token, with its quotes, whatever else it holds.
pub proof fn ley_literal_entre_comillas(dentro: Seq<char>)
    requires
        forall|k: int| 0 <= k < dentro.len() ==> dentro[k] != '\'',
    ensures
        tokens_de(seq!['\''] + dentro + seq!['\'']) == seq![seq!['\''] + dentro + seq!['\'']],
{
    let s = seq!['\''] + dentro + seq!['\''];
    let vacio = Seq::<Seq<char>>::empty();
    let n = dentro.len() as int;
    assert(s[0] == '\'');
    assert(s[n + 1] == '\'');
    assert forall|k: int| 1 <= k < n + 1 implies s[k] != '\'' by {
        assert(s[k] == dentro[k - 1]);
    }
    let t1 = Seq::<char>::empty().push('\'');
    ley_comillas(s, 1, n + 1, vacio, t1);
    let t2 = t1 + s.subrange(1, n + 1);
    assert(t2.push('\'') =~= s);
    assert(tokens_desde(s, n + 1, vacio, t2, true) == tokens_desde(
        s,
        n + 2,
        vacio,
        t2.push('\''),
        false,
    ));
    assert(vacio.push(s) =~= seq![s]);
}

/// A comparison of a name with a quoted text that holds no single quote is
/// read as one token: the name, the operator and the quoted text with its
/// quotes, joined by single spaces.
pub proof fn ley_comparacion_con_literal(nombre: Seq<char>, dentro: Seq<char>)
    requires
        nombre.len() > 0,
        forall|k: int|
            0 <= k < nombre.len() ==> {
                let c = #[trigger] nombre[k];
                !es_espacio(c) && c != '\'' && c != '(' && c != ')' && c != '>' && c != '<' && c
                    != '='
            },
        forall|k: int| 0 <= k < dentro.len() ==> dentro[k] != '\'',
    ensures
        condiciones_unidas(
            tokens_de(nombre + seq![' ', '=', ' ', '\''] + dentro + seq!['\'']),
        ) == seq![nombre + seq![' ', '=', ' '] + (seq!['\''] + dentro + seq!['\''])],
{
    let s = nombre + seq![' ', '=', ' ', '\''] + dentro + seq!['\''];
    let vacio = Seq::<Seq<char>>::empty();
    let sin = Seq::<char>::empty();
    let n = nombre.len() as int;
    let m = dentro.len() as int;
    lema_nombre(s, 0, n, vacio, sin);
    assert(sin + s.subrange(0, n) =~= nombre);
    assert(s[n] == ' ' && s[n + 1] == '=' && s[n + 2] == ' ' && s[n + 3] == '\'');
    assert(s[n + 4 + m] == '\'');
    assert(s.len() == n + 5 + m);
    let h1 = seq![nombre];
    assert(con_token_cerrado(vacio, nombre) =~= h1);
    assert(con_token_cerrado(h1, sin) == h1);
    let h2 = seq![nombre, seq!['=']];
    assert(h1.push(seq!['=']) =~= h2);
    assert(con_token_cerrado(h2, sin) == h2);
    assert(tokens_de(s) == tokens_desde(s, n + 1, h1, sin, false));
    assert(tokens_de(s) == tokens_desde(s, n + 2, h2, sin, false));
    assert(tokens_de(s) == tokens_desde(s, n + 3, h2, sin, false));
    let t1 = sin.push('\'');
    assert(tokens_de(s) == tokens_desde(s, n + 4, h2, t1, true));
    assert forall|k: int| n + 4 <= k < n + 4 + m implies s[k] != '\'' by {
        assert(s[k] == dentro[k - n - 4]);
    }
    ley_comillas(s, n + 4, n + 4 + m, h2, t1);
    let t2 = t1 + s.subrange(n + 4, n + 4 + m);
    let literal = seq!['\''] + dentro + seq!['\''];
    assert(t2.push('\'') =~= literal);
    assert(tokens_de(s) == tokens_desde(s, n + 5 + m, h2, literal, false));
    let h3 = seq![nombre, seq!['='], literal];
    assert(literal.len() > 0);
    assert(con_token_cerrado(h2, literal) =~= h3);
    assert(tokens_de(s) == h3);
    assert(operador_de(h3[1]) is Some) by {
        let igual = seq!['='];
        assert(igual[0] == '=');
        assert(seq!['>'][0] == '>');
        assert(seq!['<'][0] == '<');
        assert(seq!['>', '='].len() == 2);
        assert(seq!['<', '='].len() == 2);
    }
    assert(h3.skip(3) =~= Seq::<Seq<char>>::empty());
    assert(condiciones_unidas(h3) == seq![h3[0] + seq![' '] + h3[1] + seq![' '] + h3[2]]
        + condiciones_unidas(h3.skip(3)));
    assert(nombre + seq![' '] + seq!['='] + seq![' '] + literal =~= nombre + seq![' ', '=', ' ']
        + literal);
    assert(seq![nombre + seq![' '] + seq!['='] + seq![' '] + literal] + Seq::<
        Seq<char>,
    >::empty() =~= seq![nombre + seq![' ', '=', ' '] + literal]);
}

/// Outside quotes, a run of characters that are neither white space, quotes,
/// parentheses nor operator signs goes to the token in progress.
pub proof fn lema_nombre(s: Seq<char>, i: int, j: int, hechos: Seq<Seq<char>>, token: Seq<char>)
    requires
        0 <= i <= j <= s.len(),
        forall|k: int|
            i <= k < j ==> {
                let c = #[trigger] s[k];
                !es_espacio(c) && c != '\'' && c != '(' && c != ')' && c != '>' && c != '<' && c
                    != '='
            },
    ensures
        tokens_desde(s, i, hechos, token, false) == tokens_desde(
            s,
            j,
            hechos,
            token + s.subrange(i, j),
            false,
        ),
    decreases j - i,
{
    if i < j {
        let c = s[i];
        assert(!es_espacio(c) && c != '\'' && c != '(' && c != ')' && c != '>' && c != '<' && c
            != '=');
        lema_nombre(s, i + 1, j, hechos, token.push(s[i]));
        assert(token.push(s[i]) + s.subrange(i + 1, j) =~= token + s.subrange(i, j));
    } else {
        assert(token + s.subrange(i, j) =~= token);
    }
}

/// Whether rows stand in the order of their keys: none has its place before
/// a row that stands before it.
pub open spec fn en_orden(s: Seq<Seq<Seq<char>>>, indice: int, descendente: bool) -> bool {
    forall|i: int, j: int|
        0 <= i < j < s.len() ==> !va_antes(#[trigger] s[j], #[trigger] s[i], indice, descendente)
}

/// The position at which a row is put among ordered rows: behind the last
/// row that has not its place after it.
pub open spec fn lugar(
    s: Seq<Seq<Seq<char>>>,
    x: Seq<Seq<char>>,
    indice: int,
    descendente: bool,
) -> int
    decreases s.len(),
{
    if s.len() > 0 && va_antes(x, s.last(), indice, descendente) {
        lugar(s.drop_last(), x, indice, descendente)
    } else {
        s.len() as int
    }
}

/// Putting a row in its place inserts it at `lugar`, which lies behind
/// every row that has not its place after the new one.
pub proof fn lema_lugar(s: Seq<Seq<Seq<char>>>, x: Seq<Seq<char>>, indice: int, descendente: bool)
    ensures
        0 <= lugar(s, x, indice, descendente) <= s.len(),
        forall|k: int|
            lugar(s, x, indice, descendente) <= k < s.len() ==> va_antes(
                x,
                #[trigger] s[k],
                indice,
                descendente,
            ),
        lugar(s, x, indice, descendente) == 0 || !va_antes(
            x,
            s[lugar(s, x, indice, descendente) - 1],
            indice,
            descendente,
        ),
        insertada(s, x, indice, descendente) == s.insert(lugar(s, x, indice, descendente), x),
    decreases s.len(),
{
    if s.len() > 0 && va_antes(x, s.last(), indice, descendente) {
        let antes = s.drop_last();
        lema_lugar(antes, x, indice, descendente);
        let p = lugar(antes, x, indice, descendente);
        assert forall|k: int| p <= k < s.len() implies va_antes(
            x,
            #[trigger] s[k],
            indice,
            descendente,
        ) by {
            if k < antes.len() {
                assert(antes[k] == s[k]);
            }
        }
        if p > 0 {
            assert(antes[p - 1] == s[p - 1]);
        }
    }
    lema_insertada(s, x, indice, descendente, lugar(s, x, indice, descendente));
}

/// Putting a row in its place among rows in order leaves them in order, and
/// adds that row and no other.
pub proof fn lema_insertada_en_orden(
    s: Seq<Seq<Seq<char>>>,
    x: Seq<Seq<char>>,
    indice: int,
    descendente: bool,
)
    requires
        en_orden(s, indice, descendente),
    ensures
        en_orden(insertada(s, x, indice, descendente), indice, descendente),
        insertada(s, x, indice, descendente).to_multiset() == s.to_multiset().insert(x),
        insertada(s, x, indice, descendente).len() == s.len() + 1,
{
    lema_lugar(s, x, indice, descendente);
    let p = lugar(s, x, indice, descendente);
    let r = s.insert(p, x);
    vstd::seq_lib::to_multiset_insert(s, p, x);
    assert forall|i: int, j: int| 0 <= i < j < r.len() implies !va_antes(
        #[trigger] r[j],
        #[trigger] r[i],
        indice,
        descendente,
    ) by {
        let ka = clave(r[i], indice);
        let kb = clave(r[j], indice);
        lema_precede_asimetrica(ka, kb);
        lema_precede_asimetrica(kb, ka);
        if j == p {
            assert(r[i] == s[i]);
            if i < p - 1 {
                assert(!va_antes(s[p - 1], s[i], indice, descendente));
                let km = clave(s[p - 1], indice);
                if descendente {
                    lema_no_precede_transitiva(ka, km, kb);
                } else {
                    lema_no_precede_transitiva(kb, km, ka);
                }
            }
        } else if i == p {
            assert(r[j] == s[j - 1]);
            assert(va_antes(x, s[j - 1], indice, descendente));
        } else {
            let ii = if i < p {
                i
            } else {
                i - 1
            };
            let jj = if j < p {
                j
            } else {
                j - 1
            };
            assert(r[i] == s[ii] && r[j] == s[jj]);
            assert(!va_antes(s[jj], s[ii], indice, descendente));
        }
    }
}

/// Ordering: the ordered rows stand in the order of their keys, and they are
/// the rows that were given, each as many times as it was given.
pub proof fn ley_orden(s: Seq<Seq<Seq<char>>>, indice: int, descendente: bool)
    ensures
        en_orden(ordenadas(s, indice, descendente), indice, descendente),
        ordenadas(s, indice, descendente).to_multiset() == s.to_multiset(),
        ordenadas(s, indice, descendente).len() == s.len(),
    decreases s.len(),
{
    broadcast use vstd::seq_lib::to_multiset_len;

    if s.len() == 0 {
        assert(s =~= Seq::empty());
    } else {
        ley_orden(s.drop_last(), indice, descendente);
        lema_insertada_en_orden(
            ordenadas(s.drop_last(), indice, descendente),
            s.last(),
            indice,
            descendente,
        );
        vstd::seq_lib::to_multiset_build(s.drop_last(), s.last());
        assert(s.drop_last().push(s.last()) =~= s);
    }
}

/// What is kept of a list is no longer than the list, and all of it
/// satisfies the predicate.
pub proof fn lema_filtrado(s: Seq<Seq<char>>, p: spec_fn(Seq<char>) -> bool)
    ensures
        filtrado(s, p).len() <= s.len(),
        forall|k: int| 0 <= k < filtrado(s, p).len() ==> p(#[trigger] filtrado(s, p)[k]),
        forall|k: int|
            0 <= k < filtrado(s, p).len() ==> s.contains(#[trigger] filtrado(s, p)[k]),
        forall|k: int| 0 <= k < s.len() && p(#[trigger] s[k]) ==> filtrado(s, p).contains(s[k]),
    decreases s.len(),
{
    if s.len() > 0 {
        let antes = s.drop_last();
        lema_filtrado(antes, p);
        let f = filtrado(s, p);
        let fa = filtrado(antes, p);
        assert forall|k: int| 0 <= k < f.len() implies s.contains(#[trigger] f[k]) by {
            if k < fa.len() {
                let j = choose|j: int| 0 <= j < antes.len() && antes[j] == fa[k];
                assert(s[j] == fa[k]);
            } else {
                assert(f[k] == s[s.len() - 1]);
            }
        }
        assert forall|k: int| 0 <= k < s.len() && p(#[trigger] s[k]) implies f.contains(s[k]) by {
            if k < antes.len() {
                assert(antes[k] == s[k]);
                let j = choose|j: int| 0 <= j < fa.len() && fa[j] == antes[k];
                assert(f[j] == s[k]);
            } else {
                assert(f[f.len() - 1] == s[k]);
            }
        }
    }
}

/// Deleting: the first line of the file stays as it is; every other line
/// that is left stood in the file and does not meet the clause; and every
/// row of the file that does not meet the clause is left.
pub proof fn ley_borrado(lineas: Seq<Seq<char>>, a: Arbol)
    requires
        lineas.len() > 0,
    ensures
        borrado(Some(lineas), a) is Ok,
        borrado(Some(lineas), a)->Ok_0.len() <= lineas.len(),
        borrado(Some(lineas), a)->Ok_0[0] == lineas[0],
        forall|k: int|
            1 <= k < borrado(Some(lineas), a)->Ok_0.len() ==> {
                let l = #[trigger] borrado(Some(lineas), a)->Ok_0[k];
                lineas.contains(l) && !cumple(l, a, indices_de(encabezado(lineas)))
            },
        forall|k: int|
            1 <= k < lineas.len() && !cumple(
                #[trigger] lineas[k],
                a,
                indices_de(encabezado(lineas)),
            ) ==> borrado(Some(lineas), a)->Ok_0.contains(lineas[k]),
{
    let columnas = encabezado(lineas);
    let filas = lineas.drop_first();
    let p = no_cumple(a, columnas);
    let f = filtrado(filas, p);
    let r = borrado(Some(lineas), a)->Ok_0;
    lema_partir_y_unir(lineas[0], ',');
    lema_filtrado(filas, p);
    assert forall|k: int| 1 <= k < r.len() implies {
        let l = #[trigger] r[k];
        lineas.contains(l) && !cumple(l, a, indices_de(columnas))
    } by {
        assert(r[k] == f[k - 1]);
        assert(p(f[k - 1]));
        let j = choose|j: int| 0 <= j < filas.len() && filas[j] == f[k - 1];
        assert(lineas[j + 1] == r[k]);
    }
    assert forall|k: int|
        1 <= k < lineas.len() && !cumple(#[trigger] lineas[k], a, indices_de(columnas)) implies r.contains(
        lineas[k],
    ) by {
        assert(filas[k - 1] == lineas[k]);
        assert(p(filas[k - 1]));
        let j = choose|j: int| 0 <= j < f.len() && f[j] == filas[k - 1];
        assert(r[j + 1] == lineas[k]);
    }
}

/// The rows of `s` whose key is `k`, in their order.
pub open spec fn con_clave(s: Seq<Seq<Seq<char>>>, indice: int, k: Seq<char>) -> Seq<
    Seq<Seq<char>>,
>
    decreases s.len(),
{
    if s.len() == 0 {
        Seq::empty()
    } else if clave(s.last(), indice) == k {
        con_clave(s.drop_last(), indice, k).push(s.last())
    } else {
        con_clave(s.drop_last(), indice, k)
    }
}

/// A row that is put in its place comes behind the rows of its own key, and
/// leaves the rows of every other key as they stand.
pub proof fn lema_insertada_estable(
    s: Seq<Seq<Seq<char>>>,
    x: Seq<Seq<char>>,
    indice: int,
    descendente: bool,
    k: Seq<char>,
)
    ensures
        con_clave(insertada(s, x, indice, descendente), indice, k) == if clave(x, indice) == k {
            con_clave(s, indice, k).push(x)
        } else {
            con_clave(s, indice, k)
        },
    decreases s.len(),
{
    if s.len() > 0 && va_antes(x, s.last(), indice, descendente) {
        let antes = s.drop_last();
        let r = insertada(antes, x, indice, descendente);
        lema_insertada_estable(antes, x, indice, descendente, k);
        lema_precede_asimetrica(clave(x, indice), clave(s.last(), indice));
        assert(clave(x, indice) != clave(s.last(), indice));
        assert(r.push(s.last()).drop_last() =~= r);
        assert(r.push(s.last()).last() == s.last());
    } else {
        assert(s.push(x).drop_last() =~= s);
        assert(s.push(x).last() == x);
    }
}

/// Stability: ordering keeps the rows of one key in the order in which they
/// were given, whatever the key.
pub proof fn ley_orden_estable(
    s: Seq<Seq<Seq<char>>>,
    indice: int,
    descendente: bool,
    k: Seq<char>,
)
    ensures
        con_clave(ordenadas(s, indice, descendente), indice, k) == con_clave(s, indice, k),
    decreases s.len(),
{
    if s.len() > 0 {
        ley_orden_estable(s.drop_last(), indice, descendente, k);
        lema_insertada_estable(
            ordenadas(s.drop_last(), indice, descendente),
            s.last(),
            indice,
            descendente,
            k,
        );
    }
}

/// Whether no text of a list is empty.
pub open spec fn sin_vacios(t: Seq<Seq<char>>) -> bool {
    forall|k: int| 0 <= k < t.len() ==> (#[trigger] t[k]).len() > 0
}

/// Reading on from tokens none of which is empty gives tokens none of which
/// is empty.
pub proof fn lema_tokens_no_vacios(
    s: Seq<char>,
    i: int,
    hechos: Seq<Seq<char>>,
    token: Seq<char>,
    en_comillas: bool,
)
    requires
        sin_vacios(hechos),
    ensures
        sin_vacios(tokens_desde(s, i, hechos, token, en_comillas)),
    decreases s.len() - i,
{
    if 0 <= i < s.len() {
        let c = s[i];
        let cerrados = con_token_cerrado(hechos, token);
        assert(sin_vacios(cerrados));
        if c == '\'' {
            lema_tokens_no_vacios(s, i + 1, hechos, token.push(c), !en_comillas);
        } else if en_comillas {
            lema_tokens_no_vacios(s, i + 1, hechos, token.push(c), true);
        } else if es_espacio(c) {
            lema_tokens_no_vacios(s, i + 1, cerrados, Seq::empty(), false);
        } else if c == '(' || c == ')' {
            let h = cerrados.push(seq![c]);
            assert(sin_vacios(h));
            lema_tokens_no_vacios(s, i + 1, h, Seq::empty(), false);
        } else if c == '>' || c == '<' || c == '=' {
            if i + 1 < s.len() && s[i + 1] == '=' {
                let h = cerrados.push(seq![c, '=']);
                assert(sin_vacios(h));
                lema_tokens_no_vacios(s, i + 2, h, Seq::empty(), false);
            } else {
                let h = cerrados.push(seq![c]);
                assert(sin_vacios(h));
                lema_tokens_no_vacios(s, i + 1, h, Seq::empty(), false);
            }
        } else {
            lema_tokens_no_vacios(s, i + 1, hechos, token.push(c), false);
        }
    }
}

/// Making one token of each comparison leaves no token empty.
pub proof fn lema_unidas_no_vacias(t: Seq<Seq<char>>)
    requires
        sin_vacios(t),
    ensures
        sin_vacios(condiciones_unidas(t)),
        condiciones_unidas(t).len() == 0 <==> t.len() == 0,
    decreases t.len(),
{
    if t.len() > 0 {
        if t.len() > 2 && operador_de(t[1]) is Some {
            let cola = t.skip(3);
            assert forall|k: int| 0 <= k < cola.len() implies (#[trigger] cola[k]).len() > 0 by {
                assert(cola[k] == t[k + 3]);
            }
            lema_unidas_no_vacias(cola);
        } else {
            let cola = t.drop_first();
            assert forall|k: int| 0 <= k < cola.len() implies (#[trigger] cola[k]).len() > 0 by {
                assert(cola[k] == t[k + 1]);
            }
            assert(t[0].len() > 0);
            lema_unidas_no_vacias(cola);
        }
    }
}

/// No empty token: whatever the clause, none of its tokens is empty, before
/// and after the comparisons are made one token each.
pub proof fn ley_tokens_no_vacios(s: Seq<char>)
    ensures
        sin_vacios(tokens_de(s)),
        sin_vacios(condiciones_unidas(tokens_de(s))),
{
    lema_tokens_no_vacios(s, 0, Seq::empty(), Seq::empty(), false);
    lema_unidas_no_vacias(tokens_de(s));
}

/// The texts of a list one after the other, with nothing between them.
pub open spec fn aplanado(t: Seq<Seq<char>>) -> Seq<char>
    decreases t.len(),
{
    if t.len() == 0 {
        Seq::empty()
    } else {
        aplanado(t.drop_last()) + t.last()
    }
}

/// The characters of a clause from position `i` on, without the white space
/// that stands outside single quotes.
pub open spec fn sin_blancos_sueltos(s: Seq<char>, i: int, en_comillas: bool) -> Seq<char>
    decreases s.len() - i,
{
    if i < 0 || i >= s.len() {
        Seq::empty()
    } else if s[i] == '\'' {
        seq![s[i]] + sin_blancos_sueltos(s, i + 1, !en_comillas)
    } else if en_comillas {
        seq![s[i]] + sin_blancos_sueltos(s, i + 1, true)
    } else if es_espacio(s[i]) {
        sin_blancos_sueltos(s, i + 1, false)
    } else {
        seq![s[i]] + sin_blancos_sueltos(s, i + 1, false)
    }
}

/// Closing the token in progress adds its characters to those of the tokens
/// read so far.
pub proof fn lema_aplanado_cerrado(hechos: Seq<Seq<char>>, token: Seq<char>)
    ensures
        aplanado(con_token_cerrado(hechos, token)) == aplanado(hechos) + token,
        aplanado(hechos.push(token)) == aplanado(hechos) + token,
{
    assert(hechos.push(token).drop_last() =~= hechos);
    assert(hechos.push(token).last() == token);
    if token.len() == 0 {
        assert(aplanado(hechos) + token =~= aplanado(hechos));
    }
}

/// Reading on adds to the characters read so far those that are left of the
/// clause, but for the white space outside quotes.
pub proof fn lema_tokens_aplanados(
    s: Seq<char>,
    i: int,
    hechos: Seq<Seq<char>>,
    token: Seq<char>,
    en_comillas: bool,
)
    requires
        0 <= i,
    ensures
        aplanado(tokens_desde(s, i, hechos, token, en_comillas)) == aplanado(hechos) + token
            + sin_blancos_sueltos(s, i, en_comillas),
    decreases s.len() - i,
{
    let vacio = Seq::<char>::empty();
    let cerrados = con_token_cerrado(hechos, token);
    lema_aplanado_cerrado(hechos, token);
    if i >= s.len() {
        assert(aplanado(hechos) + token + sin_blancos_sueltos(s, i, en_comillas) =~= aplanado(
            hechos,
        ) + token);
    } else {
        let c = s[i];
        if c == '\'' {
            lema_tokens_aplanados(s, i + 1, hechos, token.push(c), !en_comillas);
            assert(aplanado(hechos) + token.push(c) + sin_blancos_sueltos(s, i + 1, !en_comillas)
                =~= aplanado(hechos) + token + (seq![c] + sin_blancos_sueltos(
                s,
                i + 1,
                !en_comillas,
            )));
        } else if en_comillas {
            lema_tokens_aplanados(s, i + 1, hechos, token.push(c), true);
            assert(aplanado(hechos) + token.push(c) + sin_blancos_sueltos(s, i + 1, true)
                =~= aplanado(hechos) + token + (seq![c] + sin_blancos_sueltos(s, i + 1, true)));
        } else if es_espacio(c) {
            lema_tokens_aplanados(s, i + 1, cerrados, vacio, false);
            assert(aplanado(cerrados) + vacio + sin_blancos_sueltos(s, i + 1, false) =~= aplanado(
                hechos,
            ) + token + sin_blancos_sueltos(s, i + 1, false));
        } else if c == '(' || c == ')' || !(i + 1 < s.len() && s[i + 1] == '=') && (c == '>' || c
            == '<' || c == '=') {
            let h = cerrados.push(seq![c]);
            lema_aplanado_cerrado(cerrados, seq![c]);
            lema_tokens_aplanados(s, i + 1, h, vacio, false);
            assert(aplanado(h) + vacio + sin_blancos_sueltos(s, i + 1, false) =~= aplanado(hechos)
                + token + (seq![c] + sin_blancos_sueltos(s, i + 1, false)));
        } else if c == '>' || c == '<' || c == '=' {
            let h = cerrados.push(seq![c, '=']);
            lema_aplanado_cerrado(cerrados, seq![c, '=']);
            lema_tokens_aplanados(s, i + 2, h, vacio, false);
            assert(sin_blancos_sueltos(s, i + 1, false) == seq!['='] + sin_blancos_sueltos(
                s,
                i + 2,
                false,
            ));
            assert(aplanado(h) + vacio + sin_blancos_sueltos(s, i + 2, false) =~= aplanado(hechos)
                + token + (seq![c] + (seq!['='] + sin_blancos_sueltos(s, i + 2, false))));
        } else {
            lema_tokens_aplanados(s, i + 1, hechos, token.push(c), false);
            assert(aplanado(hechos) + token.push(c) + sin_blancos_sueltos(s, i + 1, false)
                =~= aplanado(hechos) + token + (seq![c] + sin_blancos_sueltos(s, i + 1, false)));
        }
    }
}

/// No character lost or added: the tokens of a clause, one after the other,
/// are the characters of the clause in their order, but for the white space
/// that stands outside single quotes.
pub proof fn ley_tokens_conservan(s: Seq<char>)
    ensures
        aplanado(tokens_de(s)) == sin_blancos_sueltos(s, 0, false),
{
    lema_tokens_aplanados(s, 0, Seq::empty(), Seq::empty(), false);
    assert(aplanado(Seq::<Seq<char>>::empty()) + Seq::<char>::empty() + sin_blancos_sueltos(
        s,
        0,
        false,
    ) =~= sin_blancos_sueltos(s, 0, false));
}

/// Merging keeps the text: the tokens of a clause joined by single spaces
/// read the same before and after the comparisons are made one token each.
pub proof fn ley_unidas_conservan(t: Seq<Seq<char>>)
    ensures
        unido(condiciones_unidas(t), seq![' ']) == unido(t, seq![' ']),
        condiciones_unidas(t).len() == 0 <==> t.len() == 0,
    decreases t.len(),
{
    let sep = seq![' '];
    if t.len() > 0 {
        if t.len() > 2 && operador_de(t[1]) is Some {
            let cola = t.skip(3);
            let junto = t[0] + sep + t[1] + sep + t[2];
            ley_unidas_conservan(cola);
            let c1 = t.drop_first();
            let c2 = t.skip(2);
            assert(t =~= seq![t[0]] + c1);
            assert(c1 =~= seq![t[1]] + c2);
            lema_unido_con_primero(t[0], c1, sep);
            lema_unido_con_primero(t[1], c2, sep);
            if cola.len() == 0 {
                assert(c2 =~= seq![t[2]]);
                assert(condiciones_unidas(t) =~= seq![junto]);
                assert(unido(t, sep) =~= junto);
            } else {
                assert(c2 =~= seq![t[2]] + cola);
                lema_unido_con_primero(t[2], cola, sep);
                lema_unido_con_primero(junto, condiciones_unidas(cola), sep);
                assert(unido(t, sep) =~= junto + sep + unido(cola, sep));
            }
        } else {
            let cola = t.drop_first();
            ley_unidas_conservan(cola);
            assert(t =~= seq![t[0]] + cola);
            if cola.len() == 0 {
                assert(condiciones_unidas(t) =~= seq![t[0]]);
                assert(t =~= seq![t[0]]);
            } else {
                lema_unido_con_primero(t[0], cola, sep);
                lema_unido_con_primero(t[0], condiciones_unidas(cola), sep);
            }
        }
    }
}

} // verus!
