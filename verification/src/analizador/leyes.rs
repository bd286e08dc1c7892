//! What holds of compiling and evaluating a clause, whatever the clause.

use crate::analizador::analizador_implementacion::{
    adaptados, agrupado, combinado, compilado, completo, condicional_de,
    conectivas_resueltas, cumple, es_conectiva_pendiente, es_negacion_pendiente, es_resultado,
    evaluado, negaciones_resueltas, operador_de, parentesis_resueltos, satisface, subexpresiones,
    Conectiva,
};
use crate::analizador::condicional::{Comparacion, Operador};
use crate::analizador::expresion::{Arbol, Expresion};
use crate::ejecutor::ejecutor_implementacion::{condiciones_unidas, tokens_de};
use crate::errores::errores_implementacion::Errores;
use crate::texto::{lema_precede_asimetrica, lema_precede_total, unido};
use vstd::prelude::*;

verus! {

/// The negation that waits for its operand.
pub open spec fn negacion() -> Arbol {
    Arbol::Not { derecha: Box::new(Arbol::Unknown) }
}

/// The conjunction that waits for its operands.
pub open spec fn conjuncion() -> Arbol {
    Arbol::And { izquierda: Box::new(Arbol::Unknown), derecha: Box::new(Arbol::Unknown) }
}

/// The disjunction that waits for its operands.
pub open spec fn disyuncion() -> Arbol {
    Arbol::Or { izquierda: Box::new(Arbol::Unknown), derecha: Box::new(Arbol::Unknown) }
}

/// The negation of `a`.
pub open spec fn no(a: Arbol) -> Arbol {
    Arbol::Not { derecha: Box::new(a) }
}

/// The conjunction of `a` and `b`.
pub open spec fn y(a: Arbol, b: Arbol) -> Arbol {
    Arbol::And { izquierda: Box::new(a), derecha: Box::new(b) }
}

/// The disjunction of `a` and `b`.
pub open spec fn o(a: Arbol, b: Arbol) -> Arbol {
    Arbol::Or { izquierda: Box::new(a), derecha: Box::new(b) }
}

/// A sequence in which no negation waits for its operand passes the first
/// pass unchanged.
pub proof fn lema_sin_negaciones(hechas: Seq<Arbol>, resto: Seq<Arbol>)
    requires
        forall|i: int| 0 <= i < resto.len() ==> !es_negacion_pendiente(#[trigger] resto[i]),
    ensures
        negaciones_resueltas(hechas, resto) == Some(hechas + resto),
    decreases resto.len(),
{
    if resto.len() == 0 {
        assert(hechas + resto =~= hechas);
    } else {
        let cola = resto.drop_first();
        assert forall|i: int| 0 <= i < cola.len() implies !es_negacion_pendiente(
            #[trigger] cola[i],
        ) by {
            assert(cola[i] == resto[i + 1]);
        }
        lema_sin_negaciones(hechas.push(resto[0]), cola);
        assert(hechas.push(resto[0]) + cola =~= hechas + resto);
    }
}

/// A sequence in which no connective `op` waits for its operands passes the
/// pass for `op` unchanged.
pub proof fn lema_sin_conectivas(op: Conectiva, hechas: Seq<Arbol>, resto: Seq<Arbol>)
    requires
        forall|i: int| 0 <= i < resto.len() ==> !es_conectiva_pendiente(op, #[trigger] resto[i]),
    ensures
        conectivas_resueltas(op, hechas, resto) == Some(hechas + resto),
    decreases resto.len(),
{
    if resto.len() == 0 {
        assert(hechas + resto =~= hechas);
    } else {
        let cola = resto.drop_first();
        assert forall|i: int| 0 <= i < cola.len() implies !es_conectiva_pendiente(
            op,
            #[trigger] cola[i],
        ) by {
            assert(cola[i] == resto[i + 1]);
        }
        lema_sin_conectivas(op, hechas.push(resto[0]), cola);
        assert(hechas.push(resto[0]) + cola =~= hechas + resto);
    }
}

/// A sequence without parentheses resolves into what it groups into,
/// together with the sequence in progress, when no parenthesis is open.
pub proof fn lema_sin_parentesis(actual: Seq<Arbol>, entrada: Seq<Arbol>)
    requires
        forall|i: int|
            0 <= i < entrada.len() ==> !((#[trigger] entrada[i]) is Ipar) && !(entrada[i] is Dpar),
    ensures
        parentesis_resueltos(entrada, Seq::empty(), actual) == agrupado(actual + entrada),
    decreases entrada.len(),
{
    if entrada.len() == 0 {
        assert(actual + entrada =~= actual);
    } else {
        let cola = entrada.drop_first();
        assert forall|i: int| 0 <= i < cola.len() implies !((#[trigger] cola[i]) is Ipar) && !(
        cola[i] is Dpar) by {
            assert(cola[i] == entrada[i + 1]);
        }
        assert(!(entrada[0] is Ipar) && !(entrada[0] is Dpar));
        lema_sin_parentesis(actual.push(entrada[0]), cola);
        assert(actual.push(entrada[0]) + cola =~= actual + entrada);
    }
}

/// `NOT a AND b OR c` groups as `(NOT a AND b) OR c`.
pub proof fn lema_grupo_not_and_or(a: Arbol, b: Arbol, c: Arbol)
    requires
        a is Operacion,
        b is Operacion,
        c is Operacion,
    ensures
        agrupado(seq![negacion(), a, conjuncion(), b, disyuncion(), c]) == Ok::<Arbol, Errores>(
            o(y(no(a), b), c),
        ),
{
    reveal_with_fuel(completo, 4);
    let vacio = Seq::<Arbol>::empty();
    let s = seq![negacion(), a, conjuncion(), b, disyuncion(), c];
    let s1 = seq![no(a), conjuncion(), b, disyuncion(), c];
    assert(negaciones_resueltas(vacio, s) == Some(s1)) by {
        let cola = seq![conjuncion(), b, disyuncion(), c];
        assert(s.skip(2) =~= cola);
        lema_sin_negaciones(vacio.push(no(a)), cola);
        assert(vacio.push(no(a)) + cola =~= s1);
    }
    let s2 = seq![y(no(a), b), disyuncion(), c];
    assert(conectivas_resueltas(Conectiva::And, vacio, s1) == Some(s2)) by {
        let cola1 = seq![conjuncion(), b, disyuncion(), c];
        let cola2 = seq![disyuncion(), c];
        assert(s1.drop_first() =~= cola1);
        assert(cola1.skip(2) =~= cola2);
        let h1 = vacio.push(no(a));
        assert(h1.last() == no(a));
        let h2 = h1.drop_last().push(combinado(Conectiva::And, no(a), b));
        assert(conectivas_resueltas(Conectiva::And, h1, cola1) == conectivas_resueltas(
            Conectiva::And,
            h2,
            cola2,
        ));
        lema_sin_conectivas(Conectiva::And, h2, cola2);
        assert(h2 + cola2 =~= s2);
    }
    let s3 = seq![o(y(no(a), b), c)];
    assert(conectivas_resueltas(Conectiva::Or, vacio, s2) == Some(s3)) by {
        let cola1 = seq![disyuncion(), c];
        assert(s2.drop_first() =~= cola1);
        assert(cola1.skip(2) =~= vacio);
        let h1 = vacio.push(y(no(a), b));
        assert(h1.last() == y(no(a), b));
        let h2 = h1.drop_last().push(combinado(Conectiva::Or, y(no(a), b), c));
        assert(conectivas_resueltas(Conectiva::Or, h1, cola1) == conectivas_resueltas(
            Conectiva::Or,
            h2,
            vacio,
        ));
        assert(h2 =~= s3);
    }
}

/// `a AND b OR c` groups as `(a AND b) OR c`.
pub proof fn lema_grupo_and_or(a: Arbol, b: Arbol, c: Arbol)
    requires
        a is Operacion,
        b is Operacion,
        c is Operacion,
    ensures
        agrupado(seq![a, conjuncion(), b, disyuncion(), c]) == Ok::<Arbol, Errores>(
            o(y(a, b), c),
        ),
{
    reveal_with_fuel(completo, 4);
    let vacio = Seq::<Arbol>::empty();
    let s = seq![a, conjuncion(), b, disyuncion(), c];
    assert(negaciones_resueltas(vacio, s) == Some(s)) by {
        lema_sin_negaciones(vacio, s);
        assert(vacio + s =~= s);
    }
    let s2 = seq![y(a, b), disyuncion(), c];
    assert(conectivas_resueltas(Conectiva::And, vacio, s) == Some(s2)) by {
        let cola1 = seq![conjuncion(), b, disyuncion(), c];
        let cola2 = seq![disyuncion(), c];
        assert(s.drop_first() =~= cola1);
        assert(cola1.skip(2) =~= cola2);
        let h1 = vacio.push(a);
        assert(h1.last() == a);
        let h2 = h1.drop_last().push(combinado(Conectiva::And, a, b));
        assert(conectivas_resueltas(Conectiva::And, h1, cola1) == conectivas_resueltas(
            Conectiva::And,
            h2,
            cola2,
        ));
        lema_sin_conectivas(Conectiva::And, h2, cola2);
        assert(h2 + cola2 =~= s2);
    }
    let s3 = seq![o(y(a, b), c)];
    assert(conectivas_resueltas(Conectiva::Or, vacio, s2) == Some(s3)) by {
        let cola1 = seq![disyuncion(), c];
        assert(s2.drop_first() =~= cola1);
        assert(cola1.skip(2) =~= vacio);
        let h1 = vacio.push(y(a, b));
        assert(h1.last() == y(a, b));
        let h2 = h1.drop_last().push(combinado(Conectiva::Or, y(a, b), c));
        assert(conectivas_resueltas(Conectiva::Or, h1, cola1) == conectivas_resueltas(
            Conectiva::Or,
            h2,
            vacio,
        ));
        assert(h2 =~= s3);
    }
}

/// Two whole trees around one pending connective group into that connective
/// over the two.
pub proof fn lema_grupo_binario(op: Conectiva, a: Arbol, b: Arbol)
    requires
        completo(a),
        completo(b),
    ensures
        agrupado(
            seq![
                a,
                match op {
                    Conectiva::And => conjuncion(),
                    Conectiva::Or => disyuncion(),
                },
                b,
            ],
        ) == Ok::<Arbol, Errores>(combinado(op, a, b)),
{
    let vacio = Seq::<Arbol>::empty();
    let marca = match op {
        Conectiva::And => conjuncion(),
        Conectiva::Or => disyuncion(),
    };
    let otra = match op {
        Conectiva::And => Conectiva::Or,
        Conectiva::Or => Conectiva::And,
    };
    let s = seq![a, marca, b];
    let s3 = seq![combinado(op, a, b)];
    lema_completo(a);
    lema_completo(b);
    assert(completo(combinado(op, a, b)));
    lema_completo(combinado(op, a, b));
    assert(negaciones_resueltas(vacio, s) == Some(s)) by {
        lema_sin_negaciones(vacio, s);
        assert(vacio + s =~= s);
    }
    assert(conectivas_resueltas(otra, vacio, s) == Some(s)) by {
        lema_sin_conectivas(otra, vacio, s);
        assert(vacio + s =~= s);
    }
    assert(conectivas_resueltas(otra, vacio, s3) == Some(s3)) by {
        lema_sin_conectivas(otra, vacio, s3);
        assert(vacio + s3 =~= s3);
    }
    assert(conectivas_resueltas(op, vacio, s) == Some(s3)) by {
        let cola1 = seq![marca, b];
        assert(s.drop_first() =~= cola1);
        assert(cola1.skip(2) =~= vacio);
        let h1 = vacio.push(a);
        assert(h1.last() == a);
        let h2 = h1.drop_last().push(combinado(op, a, b));
        assert(conectivas_resueltas(op, h1, cola1) == conectivas_resueltas(op, h2, vacio));
        assert(h2 =~= s3);
    }
}

/// Precedence: for any three comparisons, the clause `NOT a AND b OR c`
/// compiles into `(NOT a AND b) OR c`, and so is true in a row exactly when
/// `a` is false and `b` true in it, or `c` is true.
pub proof fn ley_precedencia(
    a: Arbol,
    b: Arbol,
    c: Arbol,
    linea: Seq<Seq<char>>,
    indices: Map<Seq<char>, usize>,
)
    requires
        a is Operacion,
        b is Operacion,
        c is Operacion,
    ensures
        subexpresiones(seq![negacion(), a, conjuncion(), b, disyuncion(), c]) == Ok::<
            Arbol,
            Errores,
        >(o(y(no(a), b), c)),
        evaluado(o(y(no(a), b), c), linea, indices) == ((!evaluado(a, linea, indices) && evaluado(
            b,
            linea,
            indices,
        )) || evaluado(c, linea, indices)),
{
    let s = seq![negacion(), a, conjuncion(), b, disyuncion(), c];
    lema_sin_parentesis(Seq::empty(), s);
    assert(Seq::<Arbol>::empty() + s =~= s);
    lema_grupo_not_and_or(a, b, c);
    reveal_with_fuel(evaluado, 4);
}

/// Parentheses: for any three comparisons, `a AND (b OR c)` compiles into
/// the conjunction of `a` with `b OR c`, while `a AND b OR c` compiles into
/// the disjunction of `a AND b` with `c`. In a row where `a` and `b` are
/// false and `c` is true the first is false and the second true.
pub proof fn ley_parentesis(
    a: Arbol,
    b: Arbol,
    c: Arbol,
    linea: Seq<Seq<char>>,
    indices: Map<Seq<char>, usize>,
)
    requires
        a is Operacion,
        b is Operacion,
        c is Operacion,
    ensures
        subexpresiones(seq![a, conjuncion(), Arbol::Ipar, b, disyuncion(), c, Arbol::Dpar]) == Ok::<
            Arbol,
            Errores,
        >(y(a, o(b, c))),
        subexpresiones(seq![a, conjuncion(), b, disyuncion(), c]) == Ok::<Arbol, Errores>(
            o(y(a, b), c),
        ),
        evaluado(y(a, o(b, c)), linea, indices) == (evaluado(a, linea, indices) && (evaluado(
            b,
            linea,
            indices,
        ) || evaluado(c, linea, indices))),
        evaluado(o(y(a, b), c), linea, indices) == ((evaluado(a, linea, indices) && evaluado(
            b,
            linea,
            indices,
        )) || evaluado(c, linea, indices)),
        !evaluado(a, linea, indices) && !evaluado(b, linea, indices) && evaluado(c, linea, indices)
            ==> !evaluado(y(a, o(b, c)), linea, indices) && evaluado(
            o(y(a, b), c),
            linea,
            indices,
        ),
{
    let vacio = Seq::<Arbol>::empty();
    let sin = seq![a, conjuncion(), b, disyuncion(), c];
    lema_sin_parentesis(vacio, sin);
    assert(vacio + sin =~= sin);
    lema_grupo_and_or(a, b, c);
    reveal_with_fuel(evaluado, 4);
    reveal_with_fuel(completo, 3);

    let con = seq![a, conjuncion(), Arbol::Ipar, b, disyuncion(), c, Arbol::Dpar];
    let fuera = seq![a, conjuncion()];
    let dentro = seq![b, disyuncion(), c];
    let r1 = seq![conjuncion(), Arbol::Ipar, b, disyuncion(), c, Arbol::Dpar];
    let r2 = seq![Arbol::Ipar, b, disyuncion(), c, Arbol::Dpar];
    let r3 = seq![b, disyuncion(), c, Arbol::Dpar];
    let r4 = seq![disyuncion(), c, Arbol::Dpar];
    let r5 = seq![c, Arbol::Dpar];
    let r6 = seq![Arbol::Dpar];
    let pila = seq![fuera];
    assert(con.drop_first() =~= r1);
    assert(r1.drop_first() =~= r2);
    assert(r2.drop_first() =~= r3);
    assert(r3.drop_first() =~= r4);
    assert(r4.drop_first() =~= r5);
    assert(r5.drop_first() =~= r6);
    assert(r6.drop_first() =~= vacio);
    assert(vacio.push(a).push(conjuncion()) =~= fuera);
    assert(Seq::<Seq<Arbol>>::empty().push(fuera) =~= pila);
    assert(vacio.push(b).push(disyuncion()).push(c) =~= dentro);
    assert(pila.drop_last() =~= Seq::<Seq<Arbol>>::empty());
    assert(pila.last() == fuera);
    lema_grupo_binario(Conectiva::Or, b, c);
    let cerrado = seq![a, conjuncion(), o(b, c)];
    assert(fuera.push(o(b, c)) =~= cerrado);
    lema_grupo_binario(Conectiva::And, a, o(b, c));
    assert(subexpresiones(con) == parentesis_resueltos(r1, Seq::empty(), vacio.push(a)));
    assert(subexpresiones(con) == parentesis_resueltos(r2, Seq::empty(), fuera));
    assert(subexpresiones(con) == parentesis_resueltos(r3, pila, vacio));
    assert(subexpresiones(con) == parentesis_resueltos(r4, pila, vacio.push(b)));
    assert(subexpresiones(con) == parentesis_resueltos(
        r5,
        pila,
        vacio.push(b).push(disyuncion()),
    ));
    assert(subexpresiones(con) == parentesis_resueltos(r6, pila, dentro));
    assert(subexpresiones(con) == parentesis_resueltos(vacio, Seq::empty(), cerrado));
}

/// Whether the parentheses of a sequence pair up when it is read with
/// `abiertos` of them open: no closing one comes while none is open, and
/// none is open at the end.
pub open spec fn parentesis_emparejados(s: Seq<Arbol>, abiertos: nat) -> bool
    decreases s.len(),
{
    if s.len() == 0 {
        abiertos == 0
    } else {
        match s[0] {
            Arbol::Ipar => parentesis_emparejados(s.drop_first(), abiertos + 1),
            Arbol::Dpar => abiertos > 0 && parentesis_emparejados(
                s.drop_first(),
                (abiertos - 1) as nat,
            ),
            _ => parentesis_emparejados(s.drop_first(), abiertos),
        }
    }
}

/// Resolving a sequence succeeds only where its parentheses pair up, and
/// fails with a syntax error only.
pub proof fn lema_parentesis(entrada: Seq<Arbol>, pila: Seq<Seq<Arbol>>, actual: Seq<Arbol>)
    ensures
        parentesis_resueltos(entrada, pila, actual) is Ok ==> parentesis_emparejados(
            entrada,
            pila.len(),
        ),
        parentesis_resueltos(entrada, pila, actual) is Err ==> parentesis_resueltos(
            entrada,
            pila,
            actual,
        ) == Err::<Arbol, Errores>(Errores::InvalidSyntax),
    decreases entrada.len(),
{
    if entrada.len() > 0 {
        match entrada[0] {
            Arbol::Ipar => {
                lema_parentesis(entrada.drop_first(), pila.push(actual), Seq::empty());
            },
            Arbol::Dpar => {
                if pila.len() > 0 {
                    match agrupado(actual) {
                        Ok(a) => {
                            lema_parentesis(
                                entrada.drop_first(),
                                pila.drop_last(),
                                pila.last().push(a),
                            );
                        },
                        Err(_) => {},
                    }
                }
            },
            _ => {
                lema_parentesis(entrada.drop_first(), pila, actual.push(entrada[0]));
            },
        }
    }
}

/// Unbalanced parentheses: a sequence of nodes whose parentheses do not pair
/// up resolves into a syntax error.
pub proof fn ley_parentesis_sin_pareja(s: Seq<Arbol>)
    requires
        !parentesis_emparejados(s, 0),
    ensures
        subexpresiones(s) == Err::<Arbol, Errores>(Errores::InvalidSyntax),
{
    lema_parentesis(s, Seq::empty(), Seq::empty());
}

/// Unbalanced parentheses: a clause fails to compile, with a syntax error,
/// when the parentheses among its tokens do not pair up.
pub proof fn ley_clausula_sin_pareja(tokens: Seq<Seq<char>>)
    requires
        adaptados(tokens) is Ok ==> !parentesis_emparejados(adaptados(tokens)->Ok_0, 0),
    ensures
        compilado(tokens) == Err::<Arbol, Errores>(Errores::InvalidSyntax),
{
    if adaptados(tokens) is Ok {
        let s = adaptados(tokens)->Ok_0;
        ley_parentesis_sin_pareja(s);
        assert(s.len() > 0);
    } else {
        assert(tokens.len() > 0);
    }
}

/// One error: a clause that does not compile fails with a syntax error,
/// whatever is wrong with it.
pub proof fn ley_error_de_sintaxis(tokens: Seq<Seq<char>>)
    ensures
        compilado(tokens) is Err ==> compilado(tokens) == Err::<Arbol, Errores>(
            Errores::InvalidSyntax,
        ),
{
}

/// The empty clause has no tokens, compiles into the unbound node, and that
/// node accepts every row, whatever the columns.
pub proof fn ley_clausula_vacia(linea: Seq<char>, indices: Map<Seq<char>, usize>)
    ensures
        condiciones_unidas(tokens_de(Seq::empty())) == Seq::<Seq<char>>::empty(),
        compilado(Seq::empty()) == Ok::<Arbol, Errores>(Arbol::Unknown),
        cumple(linea, Arbol::Unknown, indices),
{
}

/// Compiling depends on the clause alone: two compilations of the same
/// tokens fail alike or give expressions that accept the same rows.
pub proof fn ley_compilacion_repetible(
    tokens: Seq<Seq<char>>,
    una: Result<Expresion, Errores>,
    otra: Result<Expresion, Errores>,
)
    requires
        es_resultado(una, compilado(tokens)),
        es_resultado(otra, compilado(tokens)),
    ensures
        una is Err ==> otra == una,
        una is Ok ==> otra is Ok && forall|linea: Seq<char>, indices: Map<Seq<char>, usize>|
            cumple(linea, una->Ok_0@, indices) == cumple(linea, otra->Ok_0@, indices),
{
}

/// An operand of several words: in a condition of three parts or more with
/// an operator in the second place, everything after the operator is the
/// right operand, joined by single spaces.
pub proof fn ley_operando_de_varias_palabras(partes: Seq<Seq<char>>)
    requires
        partes.len() >= 3,
        operador_de(partes[1]) is Some,
    ensures
        condicional_de(partes) is Ok,
        condicional_de(partes)->Ok_0.operador == operador_de(partes[1])->Some_0,
        condicional_de(partes)->Ok_0.miembro1 == partes[0],
        condicional_de(partes)->Ok_0.miembro2 == unido(partes.skip(2), seq![' ']),
        partes.len() == 3 ==> condicional_de(partes)->Ok_0.miembro2 == partes[2],
        partes.len() == 4 ==> condicional_de(partes)->Ok_0.miembro2 == partes[2] + seq![' ']
            + partes[3],
{
    let cola = partes.skip(2);
    if partes.len() == 4 {
        assert(cola.drop_last().len() == 1);
        assert(cola.drop_last()[0] == partes[2]);
        assert(cola.last() == partes[3]);
        reveal_with_fuel(unido, 3);
    }
}

/// The operators agree with each other: of `<`, `=` and `>` exactly one
/// holds between two texts; `>=` holds where `>` or `=` does, and `<=`
/// where `<` or `=` does; and `a > b` says what `b < a` says.
pub proof fn ley_operadores(a: Seq<char>, b: Seq<char>)
    ensures
        satisface(Operador::Menor, a, b) || satisface(Operador::Igual, a, b) || satisface(
            Operador::Mayor,
            a,
            b,
        ),
        !(satisface(Operador::Menor, a, b) && satisface(Operador::Igual, a, b)),
        !(satisface(Operador::Menor, a, b) && satisface(Operador::Mayor, a, b)),
        !(satisface(Operador::Igual, a, b) && satisface(Operador::Mayor, a, b)),
        satisface(Operador::MayorIgual, a, b) == (satisface(Operador::Mayor, a, b) || satisface(
            Operador::Igual,
            a,
            b,
        )),
        satisface(Operador::MenorIgual, a, b) == (satisface(Operador::Menor, a, b) || satisface(
            Operador::Igual,
            a,
            b,
        )),
        satisface(Operador::Mayor, a, b) == satisface(Operador::Menor, b, a),
{
    lema_precede_total(a, b);
    lema_precede_asimetrica(a, b);
    lema_precede_asimetrica(b, a);
}

/// Resolving gives whole trees only.
pub proof fn lema_resuelto_completo(entrada: Seq<Arbol>, pila: Seq<Seq<Arbol>>, actual: Seq<Arbol>)
    ensures
        parentesis_resueltos(entrada, pila, actual) matches Ok(a) ==> completo(a),
    decreases entrada.len(),
{
    if entrada.len() > 0 {
        match entrada[0] {
            Arbol::Ipar => {
                lema_resuelto_completo(entrada.drop_first(), pila.push(actual), Seq::empty());
            },
            Arbol::Dpar => {
                if pila.len() > 0 {
                    if let Ok(a) = agrupado(actual) {
                        lema_resuelto_completo(
                            entrada.drop_first(),
                            pila.drop_last(),
                            pila.last().push(a),
                        );
                    }
                }
            },
            _ => {
                lema_resuelto_completo(entrada.drop_first(), pila, actual.push(entrada[0]));
            },
        }
    }
}

/// Wholeness: whatever the nodes, what they group or resolve into is a
/// whole tree, and so is what a clause that has tokens compiles into. No
/// operand is left unbound in it and no parenthesis marker stands in it, at
/// any depth; a clause that would give another tree is a syntax error.
pub proof fn ley_arbol_completo(s: Seq<Arbol>, tokens: Seq<Seq<char>>)
    ensures
        agrupado(s) matches Ok(a) ==> completo(a),
        subexpresiones(s) matches Ok(a) ==> completo(a),
        tokens.len() > 0 ==> (compilado(tokens) matches Ok(a) ==> completo(a)),
{
    lema_resuelto_completo(s, Seq::empty(), Seq::empty());
    if tokens.len() > 0 {
        if let Ok(t) = adaptados(tokens) {
            lema_resuelto_completo(t, Seq::empty(), Seq::empty());
        }
    }
}

/// A connective that waits for its operands is no operand: `NOT AND`,
/// `a AND OR` and `a OR OR` are syntax errors, whatever the comparison `a`.
pub proof fn ley_conectiva_sin_operando(a: Arbol)
    requires
        a is Operacion,
    ensures
        subexpresiones(seq![negacion(), conjuncion()]) == Err::<Arbol, Errores>(
            Errores::InvalidSyntax,
        ),
        subexpresiones(seq![a, conjuncion(), disyuncion()]) == Err::<Arbol, Errores>(
            Errores::InvalidSyntax,
        ),
        subexpresiones(seq![a, disyuncion(), disyuncion()]) == Err::<Arbol, Errores>(
            Errores::InvalidSyntax,
        ),
{
    let vacio = Seq::<Arbol>::empty();
    reveal_with_fuel(completo, 2);
    let s1 = seq![negacion(), conjuncion()];
    lema_sin_parentesis(vacio, s1);
    assert(vacio + s1 =~= s1);
    assert(negaciones_resueltas(vacio, s1) is None);

    let s2 = seq![a, conjuncion(), disyuncion()];
    lema_sin_parentesis(vacio, s2);
    assert(vacio + s2 =~= s2);
    lema_sin_negaciones(vacio, s2);
    let cola2 = seq![conjuncion(), disyuncion()];
    assert(s2.drop_first() =~= cola2);
    assert(conectivas_resueltas(Conectiva::And, vacio, s2) == conectivas_resueltas(
        Conectiva::And,
        vacio.push(a),
        cola2,
    ));
    assert(conectivas_resueltas(Conectiva::And, vacio.push(a), cola2) is None);

    let s3 = seq![a, disyuncion(), disyuncion()];
    lema_sin_parentesis(vacio, s3);
    assert(vacio + s3 =~= s3);
    lema_sin_negaciones(vacio, s3);
    lema_sin_conectivas(Conectiva::And, vacio, s3);
    let cola3 = seq![disyuncion(), disyuncion()];
    assert(s3.drop_first() =~= cola3);
    assert(conectivas_resueltas(Conectiva::Or, vacio, s3) == conectivas_resueltas(
        Conectiva::Or,
        vacio.push(a),
        cola3,
    ));
    assert(conectivas_resueltas(Conectiva::Or, vacio.push(a), cola3) is None);
}

/// A whole tree is no marker and waits for no operand.
pub proof fn lema_completo(a: Arbol)
    requires
        completo(a),
    ensures
        !es_negacion_pendiente(a),
        !es_conectiva_pendiente(Conectiva::And, a),
        !es_conectiva_pendiente(Conectiva::Or, a),
        !(a is Ipar),
        !(a is Dpar),
        !(a is Unknown),
{
    reveal_with_fuel(completo, 2);
}

/// How many nodes the operand at the start of a sequence takes: one when it
/// is a whole tree, two when it is a negation that waits for its operand and
/// a whole tree after it, and none when the sequence starts with neither.
pub open spec fn largo_factor(s: Seq<Arbol>) -> int {
    if s.len() >= 1 && completo(s[0]) {
        1
    } else if s.len() >= 2 && es_negacion_pendiente(s[0]) && completo(s[1]) {
        2
    } else {
        0
    }
}

/// The operand at the start of a sequence: its first tree, or the negation
/// of its second.
pub open spec fn factor(s: Seq<Arbol>) -> Arbol {
    if largo_factor(s) == 2 {
        no(s[1])
    } else {
        s[0]
    }
}

/// Whether a sequence without parentheses is well formed: operands, each a
/// whole tree or the negation of one, with one `AND` or `OR` between each
/// two neighbours.
pub open spec fn bien_formada(s: Seq<Arbol>) -> bool
    decreases s.len(),
{
    let k = largo_factor(s);
    k > 0 && (s.len() == k || (s.len() > k && (s[k] == conjuncion() || s[k] == disyuncion())
        && bien_formada(s.skip(k + 1))))
}

/// The truth value of a well-formed sequence in a row, where `conj` is the
/// value of the conjunction in progress: negation binds tighter than
/// conjunction, and conjunction tighter than disjunction.
pub open spec fn valor(
    s: Seq<Arbol>,
    conj: bool,
    linea: Seq<Seq<char>>,
    indices: Map<Seq<char>, usize>,
) -> bool
    decreases s.len(),
{
    let k = largo_factor(s);
    let c = conj && evaluado(factor(s), linea, indices);
    if k <= 0 || s.len() <= k {
        c
    } else if s[k] == conjuncion() {
        valor(s.skip(k + 1), c, linea, indices)
    } else {
        c || valor(s.skip(k + 1), true, linea, indices)
    }
}

/// A well-formed sequence after its negations have taken their operands.
pub open spec fn factores(s: Seq<Arbol>) -> Seq<Arbol>
    decreases s.len(),
{
    let k = largo_factor(s);
    if k <= 0 {
        Seq::empty()
    } else if s.len() <= k {
        seq![factor(s)]
    } else {
        seq![factor(s), s[k]] + factores(s.skip(k + 1))
    }
}

/// Whether a sequence is a run of pairs of a connective and a whole tree.
pub open spec fn es_cola(r: Seq<Arbol>) -> bool
    decreases r.len(),
{
    r.len() == 0 || (r.len() >= 2 && (r[0] == conjuncion() || r[0] == disyuncion()) && completo(
        r[1],
    ) && es_cola(r.skip(2)))
}

/// Whether a sequence is a run of pairs of an `OR` and a whole tree.
pub open spec fn es_cola_de_disyunciones(r: Seq<Arbol>) -> bool
    decreases r.len(),
{
    r.len() == 0 || (r.len() >= 2 && r[0] == disyuncion() && completo(r[1])
        && es_cola_de_disyunciones(r.skip(2)))
}

/// The truth value of what a run of pairs of a connective and a whole tree
/// adds to a conjunction in progress of the value `c`.
pub open spec fn valor_cola(
    r: Seq<Arbol>,
    c: bool,
    linea: Seq<Seq<char>>,
    indices: Map<Seq<char>, usize>,
) -> bool
    decreases r.len(),
{
    if r.len() < 2 {
        c
    } else if r[0] == conjuncion() {
        valor_cola(r.skip(2), c && evaluado(r[1], linea, indices), linea, indices)
    } else {
        c || valor_cola(r.skip(2), evaluado(r[1], linea, indices), linea, indices)
    }
}

/// The first pass turns a well-formed sequence into its operands with the
/// connectives between them.
pub proof fn lema_pasada_de_negaciones(hechas: Seq<Arbol>, s: Seq<Arbol>)
    requires
        bien_formada(s),
    ensures
        negaciones_resueltas(hechas, s) == Some(hechas + factores(s)),
    decreases s.len(),
{
    let k = largo_factor(s);
    let f = factor(s);
    reveal_with_fuel(negaciones_resueltas, 3);
    if k == 1 {
        lema_completo(s[0]);
    }
    let h1 = hechas.push(f);
    if k == 1 {
        assert(s.drop_first() =~= s.skip(1));
    }
    assert(negaciones_resueltas(hechas, s) == negaciones_resueltas(h1, s.skip(k)));
    if s.len() == k {
        assert(s.skip(k) =~= Seq::empty());
        assert(h1 =~= hechas + factores(s));
    } else {
        let resto = s.skip(k);
        let cola = s.skip(k + 1);
        assert(resto[0] == s[k]);
        assert(!es_negacion_pendiente(s[k]));
        assert(resto.drop_first() =~= cola);
        lema_pasada_de_negaciones(h1.push(s[k]), cola);
        assert(h1.push(s[k]) + factores(cola) =~= hechas + factores(s));
    }
}

/// After the first pass a well-formed sequence is a whole tree followed by
/// a run of pairs of a connective and a whole tree, and has the same value.
pub proof fn lema_factores(
    s: Seq<Arbol>,
    conj: bool,
    linea: Seq<Seq<char>>,
    indices: Map<Seq<char>, usize>,
)
    requires
        bien_formada(s),
    ensures
        factores(s).len() >= 1,
        factores(s)[0] == factor(s),
        completo(factores(s)[0]),
        es_cola(factores(s).drop_first()),
        valor(s, conj, linea, indices) == valor_cola(
            factores(s).drop_first(),
            conj && evaluado(factor(s), linea, indices),
            linea,
            indices,
        ),
    decreases s.len(),
{
    let k = largo_factor(s);
    let t = factores(s);
    let c = conj && evaluado(factor(s), linea, indices);
    if s.len() == k {
        assert(t.drop_first() =~= Seq::empty());
    } else {
        let cola = s.skip(k + 1);
        let r = t.drop_first();
        let x = if s[k] == conjuncion() {
            c
        } else {
            true
        };
        lema_factores(cola, x, linea, indices);
        let tc = factores(cola);
        assert(r =~= seq![s[k]] + tc);
        assert(r[0] == s[k]);
        assert(r[1] == tc[0]);
        assert(r.skip(2) =~= tc.drop_first());
    }
}

/// A well-formed sequence after its negations and then its conjunctions
/// have taken their operands, given the first tree of the sequence and the
/// run of pairs after it.
pub open spec fn conjunciones(primero: Arbol, r: Seq<Arbol>) -> Seq<Arbol>
    decreases r.len(),
{
    if r.len() < 2 {
        seq![primero]
    } else if r[0] == conjuncion() {
        conjunciones(y(primero, r[1]), r.skip(2))
    } else {
        seq![primero, r[0]] + conjunciones(r[1], r.skip(2))
    }
}

/// The pass for `AND` joins each run of operands around conjunctions into one
/// tree, from the left, and leaves the disjunctions between the runs.
pub proof fn lema_pasada_de_conjunciones(hechas: Seq<Arbol>, primero: Arbol, r: Seq<Arbol>)
    requires
        completo(primero),
        es_cola(r),
    ensures
        conectivas_resueltas(Conectiva::And, hechas.push(primero), r) == Some(
            hechas + conjunciones(primero, r),
        ),
    decreases r.len(),
{
    let h = hechas.push(primero);
    if r.len() < 2 {
        assert(r =~= Seq::empty());
        assert(h =~= hechas + conjunciones(primero, r));
    } else {
        let cola = r.skip(2);
        lema_completo(r[1]);
        if r[0] == conjuncion() {
            assert(h.last() == primero);
            assert(h.drop_last() =~= hechas);
            lema_pasada_de_conjunciones(hechas, y(primero, r[1]), cola);
        } else {
            let resto = r.drop_first();
            assert(resto[0] == r[1]);
            assert(resto.drop_first() =~= cola);
            assert(conectivas_resueltas(Conectiva::And, h, r) == conectivas_resueltas(
                Conectiva::And,
                h.push(r[0]),
                resto,
            ));
            assert(conectivas_resueltas(Conectiva::And, h.push(r[0]), resto)
                == conectivas_resueltas(Conectiva::And, h.push(r[0]).push(r[1]), cola));
            lema_pasada_de_conjunciones(h.push(r[0]), r[1], cola);
            assert(h.push(r[0]) + conjunciones(r[1], cola) =~= hechas + conjunciones(primero, r));
        }
    }
}

/// After the pass for `AND` a well-formed sequence is a whole tree followed
/// by a run of pairs of an `OR` and a whole tree, and has the same value.
pub proof fn lema_conjunciones(
    primero: Arbol,
    r: Seq<Arbol>,
    linea: Seq<Seq<char>>,
    indices: Map<Seq<char>, usize>,
)
    requires
        completo(primero),
        es_cola(r),
    ensures
        conjunciones(primero, r).len() >= 1,
        completo(conjunciones(primero, r)[0]),
        es_cola_de_disyunciones(conjunciones(primero, r).drop_first()),
        valor_cola(
            conjunciones(primero, r).drop_first(),
            evaluado(conjunciones(primero, r)[0], linea, indices),
            linea,
            indices,
        ) == valor_cola(r, evaluado(primero, linea, indices), linea, indices),
    decreases r.len(),
{
    let u = conjunciones(primero, r);
    if r.len() < 2 {
        assert(u.drop_first() =~= Seq::empty());
    } else {
        let cola = r.skip(2);
        if r[0] == conjuncion() {
            lema_conjunciones(y(primero, r[1]), cola, linea, indices);
        } else {
            lema_conjunciones(r[1], cola, linea, indices);
            let uc = conjunciones(r[1], cola);
            let d = u.drop_first();
            assert(d =~= seq![r[0]] + uc);
            assert(d[0] == r[0]);
            assert(d[1] == uc[0]);
            assert(d.skip(2) =~= uc.drop_first());
        }
    }
}

/// The one tree that a whole tree and a run of pairs of an `OR` and a whole
/// tree make: their disjunction, grouped from the left.
pub open spec fn disyunciones(primero: Arbol, r: Seq<Arbol>) -> Arbol
    decreases r.len(),
{
    if r.len() < 2 {
        primero
    } else {
        disyunciones(o(primero, r[1]), r.skip(2))
    }
}

/// The pass for `OR` joins the operands around disjunctions into one whole
/// tree, from the left, whose value is that of the run.
pub proof fn lema_pasada_de_disyunciones(
    hechas: Seq<Arbol>,
    primero: Arbol,
    r: Seq<Arbol>,
    linea: Seq<Seq<char>>,
    indices: Map<Seq<char>, usize>,
)
    requires
        completo(primero),
        es_cola_de_disyunciones(r),
    ensures
        conectivas_resueltas(Conectiva::Or, hechas.push(primero), r) == Some(
            hechas.push(disyunciones(primero, r)),
        ),
        completo(disyunciones(primero, r)),
        evaluado(disyunciones(primero, r), linea, indices) == valor_cola(
            r,
            evaluado(primero, linea, indices),
            linea,
            indices,
        ),
    decreases r.len(),
{
    let h = hechas.push(primero);
    if r.len() < 2 {
        assert(r =~= Seq::empty());
    } else {
        let cola = r.skip(2);
        reveal_with_fuel(es_cola_de_disyunciones, 2);
        assert(h.last() == primero);
        assert(h.drop_last() =~= hechas);
        assert(conjuncion() != disyuncion());
        lema_pasada_de_disyunciones(hechas, o(primero, r[1]), cola, linea, indices);
        let a = evaluado(primero, linea, indices);
        let b = evaluado(r[1], linea, indices);
        assert(valor_cola(cola, a || b, linea, indices) == (a || valor_cola(
            cola,
            b,
            linea,
            indices,
        ))) by {
            if cola.len() >= 2 {
                assert(cola[0] == disyuncion());
            }
        }
    }
}

/// Precedence and wholeness: a well-formed sequence without parentheses
/// groups into one whole tree, with no operand left unbound, and the tree is
/// true in a row exactly when the sequence is, read with negation binding
/// tighter than conjunction and conjunction tighter than disjunction.
pub proof fn ley_precedencia_general(
    s: Seq<Arbol>,
    linea: Seq<Seq<char>>,
    indices: Map<Seq<char>, usize>,
)
    requires
        bien_formada(s),
    ensures
        agrupado(s) is Ok,
        subexpresiones(s) == agrupado(s),
        completo(agrupado(s)->Ok_0),
        evaluado(agrupado(s)->Ok_0, linea, indices) == valor(s, true, linea, indices),
{
    let vacio = Seq::<Arbol>::empty();
    lema_pasada_de_negaciones(vacio, s);
    let t = factores(s);
    assert(vacio + t =~= t);
    lema_factores(s, true, linea, indices);
    let r = t.drop_first();
    lema_completo(t[0]);
    assert(conectivas_resueltas(Conectiva::And, vacio, t) == conectivas_resueltas(
        Conectiva::And,
        vacio.push(t[0]),
        r,
    ));
    lema_pasada_de_conjunciones(vacio, t[0], r);
    let u = conjunciones(t[0], r);
    assert(vacio + u =~= u);
    lema_conjunciones(t[0], r, linea, indices);
    let q = u.drop_first();
    lema_completo(u[0]);
    assert(conectivas_resueltas(Conectiva::Or, vacio, u) == conectivas_resueltas(
        Conectiva::Or,
        vacio.push(u[0]),
        q,
    ));
    lema_pasada_de_disyunciones(vacio, u[0], q, linea, indices);
    let d = disyunciones(u[0], q);
    assert(vacio.push(d).len() == 1);
    assert(vacio.push(d)[0] == d);
    lema_bien_formada_sin_parentesis(s);
    lema_sin_parentesis(vacio, s);
    assert(vacio + s =~= s);
}

/// A well-formed sequence holds no parenthesis marker among its nodes.
pub proof fn lema_bien_formada_sin_parentesis(s: Seq<Arbol>)
    requires
        bien_formada(s),
    ensures
        forall|i: int| 0 <= i < s.len() ==> !((#[trigger] s[i]) is Ipar) && !(s[i] is Dpar),
    decreases s.len(),
{
    let k = largo_factor(s);
    if k == 1 {
        lema_completo(s[0]);
    } else {
        lema_completo(s[1]);
    }
    if s.len() > k {
        let cola = s.skip(k + 1);
        lema_bien_formada_sin_parentesis(cola);
        assert forall|i: int| 0 <= i < s.len() implies !((#[trigger] s[i]) is Ipar) && !(
        s[i] is Dpar) by {
            if i > k {
                assert(cola[i - k - 1] == s[i]);
            }
        }
    }
}

/// The comparisons of a tree, from left to right.
pub open spec fn hojas(a: Arbol) -> Seq<Comparacion>
    decreases a,
{
    match a {
        Arbol::Not { derecha } => hojas(*derecha),
        Arbol::And { izquierda, derecha } => hojas(*izquierda) + hojas(*derecha),
        Arbol::Or { izquierda, derecha } => hojas(*izquierda) + hojas(*derecha),
        Arbol::Operacion { condicional } => seq![condicional],
        _ => Seq::empty(),
    }
}

/// The comparisons of the trees of a sequence, from left to right.
pub open spec fn hojas_de(s: Seq<Arbol>) -> Seq<Comparacion>
    decreases s.len(),
{
    if s.len() == 0 {
        Seq::empty()
    } else {
        hojas_de(s.drop_last()) + hojas(s.last())
    }
}

/// The comparisons of the sequences of a stack, from the bottom up.
pub open spec fn hojas_de_pila(p: Seq<Seq<Arbol>>) -> Seq<Comparacion>
    decreases p.len(),
{
    if p.len() == 0 {
        Seq::empty()
    } else {
        hojas_de_pila(p.drop_last()) + hojas_de(p.last())
    }
}

/// The comparisons of two sequences put together are those of the first and
/// then those of the second.
pub proof fn lema_hojas_de_suma(a: Seq<Arbol>, b: Seq<Arbol>)
    ensures
        hojas_de(a + b) == hojas_de(a) + hojas_de(b),
    decreases b.len(),
{
    if b.len() == 0 {
        assert(a + b =~= a);
        assert(hojas_de(a) + hojas_de(b) =~= hojas_de(a));
    } else {
        lema_hojas_de_suma(a, b.drop_last());
        assert((a + b).drop_last() =~= a + b.drop_last());
        assert((a + b).last() == b.last());
        assert(hojas_de(a) + hojas_de(b.drop_last()) + hojas(b.last()) =~= hojas_de(a) + (
        hojas_de(b.drop_last()) + hojas(b.last())));
    }
}

/// The comparisons of a sequence are those of a run of nodes at its start
/// and then those of the rest; a sequence with one more node has the
/// comparisons of that node more.
pub proof fn lema_hojas_de_partes(s: Seq<Arbol>, k: int, x: Arbol)
    requires
        0 <= k <= s.len(),
    ensures
        hojas_de(s) == hojas_de(s.take(k)) + hojas_de(s.skip(k)),
        hojas_de(s.push(x)) == hojas_de(s) + hojas(x),
        hojas_de(seq![x]) == hojas(x),
{
    lema_hojas_de_suma(s.take(k), s.skip(k));
    assert(s.take(k) + s.skip(k) =~= s);
    assert(s.push(x).drop_last() =~= s);
    assert(seq![x].drop_last() =~= Seq::<Arbol>::empty());
    assert(hojas_de(Seq::<Arbol>::empty()) + hojas(x) =~= hojas(x));
}

/// The first pass keeps the comparisons and their order.
pub proof fn lema_hojas_de_negaciones(hechas: Seq<Arbol>, resto: Seq<Arbol>)
    ensures
        negaciones_resueltas(hechas, resto) matches Some(r) ==> hojas_de(r) == hojas_de(hechas)
            + hojas_de(resto),
    decreases resto.len(),
{
    reveal_with_fuel(hojas, 2);
    if resto.len() == 0 {
        assert(hojas_de(hechas) + hojas_de(resto) =~= hojas_de(hechas));
    } else if es_negacion_pendiente(resto[0]) {
        if resto.len() >= 2 && completo(resto[1]) {
            let nodo = Arbol::Not { derecha: Box::new(resto[1]) };
            let cola = resto.skip(2);
            lema_hojas_de_negaciones(hechas.push(nodo), cola);
            lema_hojas_de_partes(hechas, 0, nodo);
            lema_hojas_de_partes(resto, 2, nodo);
            let par = resto.take(2);
            lema_hojas_de_partes(par, 1, nodo);
            assert(par.take(1) =~= seq![resto[0]]);
            assert(par.skip(1) =~= seq![resto[1]]);
            lema_hojas_de_partes(seq![resto[0]], 0, resto[0]);
            lema_hojas_de_partes(seq![resto[1]], 0, resto[1]);
            assert(hojas(resto[0]) =~= Seq::<Comparacion>::empty());
            assert(hojas_de(par) =~= hojas(resto[1]));
            assert(hojas_de(hechas) + hojas(nodo) + hojas_de(cola) =~= hojas_de(hechas) + (hojas(
                resto[1],
            ) + hojas_de(cola)));
        }
    } else {
        let cola = resto.drop_first();
        lema_hojas_de_negaciones(hechas.push(resto[0]), cola);
        lema_hojas_de_partes(hechas, 0, resto[0]);
        lema_hojas_de_partes(resto, 1, resto[0]);
        assert(resto.take(1) =~= seq![resto[0]]);
        assert(resto.skip(1) =~= cola);
        assert(hojas_de(hechas) + hojas(resto[0]) + hojas_de(cola) =~= hojas_de(hechas) + (hojas(
            resto[0],
        ) + hojas_de(cola)));
    }
}

/// A pass for a connective keeps the comparisons and their order.
pub proof fn lema_hojas_de_conectivas(op: Conectiva, hechas: Seq<Arbol>, resto: Seq<Arbol>)
    ensures
        conectivas_resueltas(op, hechas, resto) matches Some(r) ==> hojas_de(r) == hojas_de(
            hechas,
        ) + hojas_de(resto),
    decreases resto.len(),
{
    reveal_with_fuel(hojas, 2);
    if resto.len() == 0 {
        assert(hojas_de(hechas) + hojas_de(resto) =~= hojas_de(hechas));
    } else if es_conectiva_pendiente(op, resto[0]) {
        if hechas.len() > 0 && resto.len() >= 2 && completo(hechas.last()) && completo(resto[1]) {
            let nodo = combinado(op, hechas.last(), resto[1]);
            let antes = hechas.drop_last();
            let cola = resto.skip(2);
            lema_hojas_de_conectivas(op, antes.push(nodo), cola);
            lema_hojas_de_partes(antes, 0, nodo);
            lema_hojas_de_partes(resto, 2, nodo);
            let par = resto.take(2);
            lema_hojas_de_partes(par, 1, nodo);
            assert(par.take(1) =~= seq![resto[0]]);
            assert(par.skip(1) =~= seq![resto[1]]);
            lema_hojas_de_partes(seq![resto[0]], 0, resto[0]);
            lema_hojas_de_partes(seq![resto[1]], 0, resto[1]);
            assert(hojas(resto[0]) =~= Seq::<Comparacion>::empty());
            assert(hojas_de(par) =~= hojas(resto[1]));
            assert(hojas(nodo) == hojas(hechas.last()) + hojas(resto[1]));
            assert(hojas_de(antes) + hojas(nodo) + hojas_de(cola) =~= hojas_de(antes) + hojas(
                hechas.last(),
            ) + (hojas(resto[1]) + hojas_de(cola)));
        }
    } else {
        let cola = resto.drop_first();
        lema_hojas_de_conectivas(op, hechas.push(resto[0]), cola);
        lema_hojas_de_partes(hechas, 0, resto[0]);
        lema_hojas_de_partes(resto, 1, resto[0]);
        assert(resto.take(1) =~= seq![resto[0]]);
        assert(resto.skip(1) =~= cola);
        assert(hojas_de(hechas) + hojas(resto[0]) + hojas_de(cola) =~= hojas_de(hechas) + (hojas(
            resto[0],
        ) + hojas_de(cola)));
    }
}

/// Grouping keeps the comparisons and their order.
pub proof fn lema_hojas_de_agrupado(s: Seq<Arbol>)
    ensures
        agrupado(s) matches Ok(a) ==> hojas(a) == hojas_de(s),
{
    let vacio = Seq::<Arbol>::empty();
    let nada = Seq::<Comparacion>::empty();
    lema_hojas_de_negaciones(vacio, s);
    assert(hojas_de(vacio) =~= nada);
    if let Some(s1) = negaciones_resueltas(vacio, s) {
        assert(nada + hojas_de(s) =~= hojas_de(s));
        lema_hojas_de_conectivas(Conectiva::And, vacio, s1);
        if let Some(s2) = conectivas_resueltas(Conectiva::And, vacio, s1) {
            assert(nada + hojas_de(s1) =~= hojas_de(s1));
            lema_hojas_de_conectivas(Conectiva::Or, vacio, s2);
            if let Some(s3) = conectivas_resueltas(Conectiva::Or, vacio, s2) {
                assert(nada + hojas_de(s2) =~= hojas_de(s2));
                if s3.len() == 1 {
                    assert(s3 =~= seq![s3[0]]);
                    lema_hojas_de_partes(s3, 0, s3[0]);
                }
            }
        }
    }
}

/// Resolving keeps the comparisons and their order: those of the sequences
/// that wait, then those of the sequence in progress, then those still to
/// read.
pub proof fn lema_hojas_resueltas(entrada: Seq<Arbol>, pila: Seq<Seq<Arbol>>, actual: Seq<Arbol>)
    ensures
        parentesis_resueltos(entrada, pila, actual) matches Ok(a) ==> hojas(a) == hojas_de_pila(
            pila,
        ) + hojas_de(actual) + hojas_de(entrada),
    decreases entrada.len(),
{
    let nada = Seq::<Comparacion>::empty();
    let izquierda = hojas_de_pila(pila) + hojas_de(actual);
    if entrada.len() == 0 {
        lema_hojas_de_agrupado(actual);
        if pila.len() == 0 {
            assert(hojas_de_pila(pila) + hojas_de(actual) + hojas_de(entrada) =~= hojas_de(actual));
        }
    } else {
        let cola = entrada.drop_first();
        lema_hojas_de_partes(entrada, 1, entrada[0]);
        assert(entrada.take(1) =~= seq![entrada[0]]);
        assert(entrada.skip(1) =~= cola);
        assert(hojas_de(entrada) == hojas(entrada[0]) + hojas_de(cola));
        match entrada[0] {
            Arbol::Ipar => {
                let nueva = pila.push(actual);
                lema_hojas_resueltas(cola, nueva, Seq::empty());
                assert(nueva.drop_last() =~= pila);
                assert(hojas_de_pila(nueva) + hojas_de(Seq::<Arbol>::empty()) + hojas_de(cola)
                    =~= izquierda + (nada + hojas_de(cola)));
            },
            Arbol::Dpar => {
                if pila.len() > 0 {
                    lema_hojas_de_agrupado(actual);
                    if let Ok(a) = agrupado(actual) {
                        let sigue = pila.last().push(a);
                        lema_hojas_resueltas(cola, pila.drop_last(), sigue);
                        lema_hojas_de_partes(pila.last(), 0, a);
                        assert(hojas_de_pila(pila.drop_last()) + hojas_de(sigue) + hojas_de(cola)
                            =~= izquierda + (nada + hojas_de(cola)));
                    }
                }
            },
            _ => {
                let sigue = actual.push(entrada[0]);
                lema_hojas_resueltas(cola, pila, sigue);
                lema_hojas_de_partes(actual, 0, entrada[0]);
                assert(hojas_de_pila(pila) + hojas_de(sigue) + hojas_de(cola) =~= izquierda + (
                hojas(entrada[0]) + hojas_de(cola)));
            },
        }
    }
}

/// Leaves in order: the tree that a sequence of nodes groups or resolves
/// into holds the comparisons of the sequence, each once and in the order of
/// the sequence, and no other.
pub proof fn ley_hojas_en_orden(s: Seq<Arbol>)
    ensures
        agrupado(s) matches Ok(a) ==> hojas(a) == hojas_de(s),
        subexpresiones(s) matches Ok(a) ==> hojas(a) == hojas_de(s),
{
    lema_hojas_de_agrupado(s);
    lema_hojas_resueltas(s, Seq::empty(), Seq::empty());
    assert(hojas_de_pila(Seq::<Seq<Arbol>>::empty()) + hojas_de(Seq::<Arbol>::empty()) + hojas_de(
        s,
    ) =~= hojas_de(s));
}

} // verus!
