//! Compiling the tokens of a `WHERE` clause into one expression, and
//! evaluating the expression in a row of a table.

use crate::analizador::condicional::{Comparacion, Condicional, Operador};
use crate::analizador::expresion::{arbol_de, Arbol, Expresion};
use crate::errores::errores_implementacion::Errores;
use crate::texto::{
    cadena, caracteres, es_menor, espacio, iguales, lema_vistas_push, mayusculas, palabras,
    partido, partir, partir_espacios, pasar_a_mayusculas, precede, quitar_finales,
    quitar_iniciales, recortado, recortar, sin_prefijos, sin_sufijos, unido, unir_tramo, vistas,
};
use vstd::hash_map::StringHashMap;
use vstd::prelude::*;

verus! {

/// Whether `a` is a negation that still waits for its operand.
pub open spec fn es_negacion_pendiente(a: Arbol) -> bool {
    a == (Arbol::Not { derecha: Box::new(Arbol::Unknown) })
}

/// Decides `es_negacion_pendiente`.
pub fn negacion_pendiente(e: &Expresion) -> (r: bool)
    ensures
        r == es_negacion_pendiente(e@),
{
    proof {
        reveal_with_fuel(arbol_de, 2);
    }
    match e {
        Expresion::Not { derecha } => match **derecha {
            Expresion::Unknown => true,
            _ => false,
        },
        _ => false,
    }
}

/// The two connectives that take an operand on each side.
#[derive(Debug, PartialEq, Eq, Structural, Clone, Copy)]
pub enum Conectiva {
    /// Conjunction.
    And,
    /// Disjunction.
    Or,
}

/// Whether `a` is the connective `op` still waiting for both operands.
pub open spec fn es_conectiva_pendiente(op: Conectiva, a: Arbol) -> bool {
    match op {
        Conectiva::And => a == (Arbol::And {
            izquierda: Box::new(Arbol::Unknown),
            derecha: Box::new(Arbol::Unknown),
        }),
        Conectiva::Or => a == (Arbol::Or {
            izquierda: Box::new(Arbol::Unknown),
            derecha: Box::new(Arbol::Unknown),
        }),
    }
}

/// The connective `op` applied to two operands.
pub open spec fn combinado(op: Conectiva, izquierda: Arbol, derecha: Arbol) -> Arbol {
    match op {
        Conectiva::And => Arbol::And {
            izquierda: Box::new(izquierda),
            derecha: Box::new(derecha),
        },
        Conectiva::Or => Arbol::Or { izquierda: Box::new(izquierda), derecha: Box::new(derecha) },
    }
}

/// Decides `es_conectiva_pendiente`.
pub fn conectiva_pendiente(op: Conectiva, e: &Expresion) -> (r: bool)
    ensures
        r == es_conectiva_pendiente(op, e@),
{
    proof {
        reveal_with_fuel(arbol_de, 2);
    }
    match (op, e) {
        (Conectiva::And, Expresion::And { izquierda, derecha }) => match (
            &**izquierda,
            &**derecha,
        ) {
            (Expresion::Unknown, Expresion::Unknown) => true,
            _ => false,
        },
        (Conectiva::Or, Expresion::Or { izquierda, derecha }) => match (&**izquierda, &**derecha) {
            (Expresion::Unknown, Expresion::Unknown) => true,
            _ => false,
        },
        _ => false,
    }
}

/// Builds the connective `op` over two operands.
pub fn combinar(op: Conectiva, izquierda: Expresion, derecha: Expresion) -> (r: Expresion)
    ensures
        r@ == combinado(op, izquierda@, derecha@),
{
    match op {
        Conectiva::And => Expresion::And {
            izquierda: Box::new(izquierda),
            derecha: Box::new(derecha),
        },
        Conectiva::Or => Expresion::Or {
            izquierda: Box::new(izquierda),
            derecha: Box::new(derecha),
        },
    }
}

/// Whether a tree is whole: made of connectives and comparisons alone, with
/// no operand left unbound and no parenthesis marker, at any depth.
pub open spec fn completo(a: Arbol) -> bool
    decreases a,
{
    match a {
        Arbol::Not { derecha } => completo(*derecha),
        Arbol::And { izquierda, derecha } => completo(*izquierda) && completo(*derecha),
        Arbol::Or { izquierda, derecha } => completo(*izquierda) && completo(*derecha),
        Arbol::Operacion { .. } => true,
        _ => false,
    }
}

/// Decides `completo`.
pub fn es_completa(e: &Expresion) -> (r: bool)
    ensures
        r == completo(e@),
    decreases e,
{
    match e {
        Expresion::Not { derecha } => es_completa(derecha),
        Expresion::And { izquierda, derecha } => es_completa(izquierda) && es_completa(derecha),
        Expresion::Or { izquierda, derecha } => es_completa(izquierda) && es_completa(derecha),
        Expresion::Operacion { .. } => true,
        _ => false,
    }
}

/// The first pass over a sequence without parentheses, from left to right:
/// each pending negation takes the node that follows it as its operand,
/// which must be a whole tree. `hechas` is what the pass has produced so far
/// and `resto` what it has still to read. `None` when a pending negation is
/// the last node or the node after it is not whole.
pub open spec fn negaciones_resueltas(hechas: Seq<Arbol>, resto: Seq<Arbol>) -> Option<Seq<Arbol>>
    decreases resto.len(),
{
    if resto.len() == 0 {
        Some(hechas)
    } else if es_negacion_pendiente(resto[0]) {
        if resto.len() < 2 || !completo(resto[1]) {
            None
        } else {
            negaciones_resueltas(
                hechas.push(Arbol::Not { derecha: Box::new(resto[1]) }),
                resto.skip(2),
            )
        }
    } else {
        negaciones_resueltas(hechas.push(resto[0]), resto.drop_first())
    }
}

/// A pass for the connective `op` over a sequence, from left to right: each
/// pending `op` takes the node before it, as the pass has left it, and the
/// node after it as its operands, and the three become one node. Both
/// operands must be whole trees. `hechas` is what the pass has produced so
/// far and `resto` what it has still to read. `None` when a pending `op` has
/// no node before it or none after it, or one of the two is not whole.
pub open spec fn conectivas_resueltas(op: Conectiva, hechas: Seq<Arbol>, resto: Seq<Arbol>)
    -> Option<Seq<Arbol>>
    decreases resto.len(),
{
    if resto.len() == 0 {
        Some(hechas)
    } else if es_conectiva_pendiente(op, resto[0]) {
        if hechas.len() == 0 || resto.len() < 2 || !completo(hechas.last()) || !completo(
            resto[1],
        ) {
            None
        } else {
            conectivas_resueltas(
                op,
                hechas.drop_last().push(combinado(op, hechas.last(), resto[1])),
                resto.skip(2),
            )
        }
    } else {
        conectivas_resueltas(op, hechas.push(resto[0]), resto.drop_first())
    }
}

/// The one expression that a sequence without parentheses groups into:
/// negations are resolved first, then conjunctions, then disjunctions, and
/// exactly one node must be left, which must be a whole tree.
pub open spec fn agrupado(s: Seq<Arbol>) -> Result<Arbol, Errores> {
    match negaciones_resueltas(Seq::empty(), s) {
        None => Err(Errores::InvalidSyntax),
        Some(s1) => match conectivas_resueltas(Conectiva::And, Seq::empty(), s1) {
            None => Err(Errores::InvalidSyntax),
            Some(s2) => match conectivas_resueltas(Conectiva::Or, Seq::empty(), s2) {
                None => Err(Errores::InvalidSyntax),
                Some(s3) => if s3.len() == 1 && completo(s3[0]) {
                    Ok(s3[0])
                } else {
                    Err(Errores::InvalidSyntax)
                },
            },
        },
    }
}

/// Whether a list of expressions is the outcome `m` of a pass: the
/// error when the pass fails, else a list with the views that it gives.
pub open spec fn es_pasada(r: Result<Vec<Expresion>, Errores>, m: Option<Seq<Arbol>>) -> bool {
    match m {
        Some(s) => r is Ok && vistas(r->Ok_0@) == s,
        None => r == Err::<Vec<Expresion>, Errores>(Errores::InvalidSyntax),
    }
}

/// Whether an expression is the outcome `m` of compiling: the same error, or
/// an expression with that view.
pub open spec fn es_resultado(r: Result<Expresion, Errores>, m: Result<Arbol, Errores>) -> bool {
    match m {
        Ok(a) => r is Ok && r->Ok_0@ == a,
        Err(e) => r == Err::<Expresion, Errores>(e),
    }
}

/// Gives each pending negation of `exp` the node that follows it.
pub fn resolver_negaciones(exp: Vec<Expresion>) -> (r: Result<Vec<Expresion>, Errores>)
    ensures
        es_pasada(r, negaciones_resueltas(Seq::empty(), vistas(exp@))),
{
    let ghost total = negaciones_resueltas(Seq::empty(), vistas(exp@));
    let mut v = exp;
    let mut i: usize = 0;
    assert(vistas(v@).take(0) =~= Seq::empty());
    assert(vistas(v@).skip(0) =~= vistas(v@));
    while i < v.len()
        invariant
            i <= v.len(),
            total == negaciones_resueltas(Seq::empty(), vistas(exp@)),
            total == negaciones_resueltas(vistas(v@).take(i as int), vistas(v@).skip(i as int)),
        decreases v.len() - i,
    {
        let ghost antes = vistas(v@);
        assert(antes.skip(i as int)[0] == antes[i as int]);
        if negacion_pendiente(&v[i]) {
            if i + 1 < v.len() && es_completa(&v[i + 1]) {
                assert(antes.skip(i as int)[1] == antes[i + 1]);
                let derecha = v.remove(i + 1);
                v.set(i, Expresion::Not { derecha: Box::new(derecha) });
                proof {
                    let nodo = Arbol::Not { derecha: Box::new(antes[i + 1]) };
                    assert(antes.skip(i as int)[1] == antes[i + 1]);
                    assert(vistas(v@).take(i + 1) =~= antes.take(i as int).push(nodo));
                    assert(vistas(v@).skip(i + 1) =~= antes.skip(i as int).skip(2));
                }
            } else {
                proof {
                    if i + 1 < v.len() {
                        assert(antes.skip(i as int)[1] == antes[i + 1]);
                    }
                }
                return Err(Errores::InvalidSyntax);
            }
        } else {
            proof {
                assert(antes.take(i + 1) =~= antes.take(i as int).push(antes[i as int]));
                assert(antes.skip(i + 1) =~= antes.skip(i as int).drop_first());
            }
        }
        i += 1;
    }
    assert(vistas(v@).take(i as int) =~= vistas(v@));
    Ok(v)
}

/// Gives each pending connective `op` of `exp` the nodes around it.
pub fn resolver_conectivas(op: Conectiva, exp: Vec<Expresion>) -> (r: Result<
    Vec<Expresion>,
    Errores,
>)
    ensures
        es_pasada(r, conectivas_resueltas(op, Seq::empty(), vistas(exp@))),
{
    let ghost total = conectivas_resueltas(op, Seq::empty(), vistas(exp@));
    let mut v = exp;
    let mut i: usize = 0;
    assert(vistas(v@).take(0) =~= Seq::empty());
    assert(vistas(v@).skip(0) =~= vistas(v@));
    while i < v.len()
        invariant
            i <= v.len(),
            total == conectivas_resueltas(op, Seq::empty(), vistas(exp@)),
            total == conectivas_resueltas(
                op,
                vistas(v@).take(i as int),
                vistas(v@).skip(i as int),
            ),
        decreases v.len() - i,
    {
        let ghost antes = vistas(v@);
        assert(antes.skip(i as int)[0] == antes[i as int]);
        if conectiva_pendiente(op, &v[i]) {
            if i > 0 && i + 1 < v.len() && es_completa(&v[i - 1]) && es_completa(&v[i + 1]) {
                assert(antes.skip(i as int)[1] == antes[i + 1]);
                assert(antes.take(i as int).last() == antes[i - 1]);
                let izquierda = v.remove(i - 1);
                let derecha = v.remove(i);
                v.set(i - 1, combinar(op, izquierda, derecha));
                proof {
                    let nodo = combinado(op, antes[i - 1], antes[i + 1]);
                    assert(antes.skip(i as int)[1] == antes[i + 1]);
                    assert(antes.take(i as int).last() == antes[i - 1]);
                    assert(vistas(v@).take(i as int) =~= antes.take(i as int).drop_last().push(
                        nodo,
                    ));
                    assert(vistas(v@).skip(i as int) =~= antes.skip(i as int).skip(2));
                }
            } else {
                proof {
                    if i > 0 && i + 1 < v.len() {
                        assert(antes.skip(i as int)[1] == antes[i + 1]);
                        assert(antes.take(i as int).last() == antes[i - 1]);
                    }
                }
                return Err(Errores::InvalidSyntax);
            }
        } else {
            proof {
                assert(antes.take(i + 1) =~= antes.take(i as int).push(antes[i as int]));
                assert(antes.skip(i + 1) =~= antes.skip(i as int).drop_first());
            }
            i += 1;
        }
    }
    assert(vistas(v@).take(i as int) =~= vistas(v@));
    Ok(v)
}

/// Groups a sequence without parentheses into one expression: negation
/// binds tighter than conjunction, and conjunction tighter than disjunction.
/// Fails when an operator lacks an operand or would take one that is not a
/// whole tree, and when what is left is not one whole tree.
pub fn agrupar_expresion(exp: Vec<Expresion>) -> (r: Result<Expresion, Errores>)
    ensures
        es_resultado(r, agrupado(vistas(exp@))),
        r is Ok ==> completo(r->Ok_0@),
{
    let sin_not = match resolver_negaciones(exp) {
        Ok(v) => v,
        Err(e) => return Err(e),
    };
    let sin_and = match resolver_conectivas(Conectiva::And, sin_not) {
        Ok(v) => v,
        Err(e) => return Err(e),
    };
    let mut sin_or = match resolver_conectivas(Conectiva::Or, sin_and) {
        Ok(v) => v,
        Err(e) => return Err(e),
    };
    if sin_or.len() == 1 && es_completa(&sin_or[0]) {
        let elemento = sin_or.remove(0);
        Ok(elemento)
    } else {
        Err(Errores::InvalidSyntax)
    }
}

/// What a stack of sequences in progress stands for.
pub open spec fn pila_de(p: Seq<Vec<Expresion>>) -> Seq<Seq<Arbol>> {
    Seq::new(p.len(), |i: int| vistas(p[i]@))
}

/// The expression that the nodes of `entrada` resolve into when they are read
/// from left to right with `actual` the sequence in progress and `pila` the
/// sequences that wait for a parenthesis to close. An opening parenthesis
/// puts the sequence in progress on the stack and starts an empty one. A
/// closing one groups the sequence in progress into one node and adds it to
/// the sequence taken from the stack; it fails when the stack is empty. At
/// the end the stack must be empty, and the sequence in progress is grouped.
pub open spec fn parentesis_resueltos(
    entrada: Seq<Arbol>,
    pila: Seq<Seq<Arbol>>,
    actual: Seq<Arbol>,
) -> Result<Arbol, Errores>
    decreases entrada.len(),
{
    if entrada.len() == 0 {
        if pila.len() > 0 {
            Err(Errores::InvalidSyntax)
        } else {
            agrupado(actual)
        }
    } else {
        match entrada[0] {
            Arbol::Ipar => parentesis_resueltos(
                entrada.drop_first(),
                pila.push(actual),
                Seq::empty(),
            ),
            Arbol::Dpar => if pila.len() == 0 {
                Err(Errores::InvalidSyntax)
            } else {
                match agrupado(actual) {
                    Ok(a) => parentesis_resueltos(
                        entrada.drop_first(),
                        pila.drop_last(),
                        pila.last().push(a),
                    ),
                    Err(e) => Err(e),
                }
            },
            _ => parentesis_resueltos(entrada.drop_first(), pila, actual.push(entrada[0])),
        }
    }
}

/// The expression that a sequence of nodes, parentheses included, resolves
/// into.
pub open spec fn subexpresiones(s: Seq<Arbol>) -> Result<Arbol, Errores> {
    parentesis_resueltos(s, Seq::empty(), Seq::empty())
}

/// Resolves a sequence of nodes into one expression: what stands between a
/// pair of parentheses is grouped first and takes part in the sequence around
/// it as one node. Fails on a parenthesis without its partner and wherever
/// the grouping fails. What it gives is a whole tree.
pub fn obtener_subexpresiones(exp: Vec<Expresion>) -> (r: Result<Expresion, Errores>)
    ensures
        es_resultado(r, subexpresiones(vistas(exp@))),
        r is Ok ==> completo(r->Ok_0@),
{
    let ghost entrada = vistas(exp@);
    let mut pendientes = exp;
    let mut stack: Vec<Vec<Expresion>> = Vec::new();
    let mut auxiliar: Vec<Expresion> = Vec::new();
    assert(pila_de(stack@) =~= Seq::empty());
    assert(vistas(auxiliar@) =~= Seq::empty());
    while pendientes.len() > 0
        invariant
            entrada == vistas(exp@),
            subexpresiones(entrada) == parentesis_resueltos(
                vistas(pendientes@),
                pila_de(stack@),
                vistas(auxiliar@),
            ),
        decreases pendientes.len(),
    {
        let ghost resto = vistas(pendientes@);
        let ghost pila = pila_de(stack@);
        let ghost actual = vistas(auxiliar@);
        let expresion = pendientes.remove(0);
        assert(vistas(pendientes@) =~= resto.drop_first());
        assert(resto[0] == expresion@);
        match expresion {
            Expresion::Ipar => {
                stack.push(auxiliar);
                auxiliar = Vec::new();
                assert(pila_de(stack@) =~= pila.push(actual));
                assert(vistas(auxiliar@) =~= Seq::empty());
            },
            Expresion::Dpar => {
                match stack.pop() {
                    Some(tope) => {
                        let mut tope = tope;
                        assert(vistas(tope@) == pila.last());
                        assert(pila_de(stack@) =~= pila.drop_last());
                        let agrupada = match agrupar_expresion(auxiliar) {
                            Ok(a) => a,
                            Err(e) => {
                                return Err(e);
                            },
                        };
                        proof {
                            lema_vistas_push(tope@, agrupada);
                        }
                        tope.push(agrupada);
                        auxiliar = tope;
                    },
                    None => {
                        return Err(Errores::InvalidSyntax);
                    },
                }
            },
            _ => {
                proof {
                    lema_vistas_push(auxiliar@, expresion);
                }
                auxiliar.push(expresion);
            },
        }
    }
    if stack.len() > 0 {
        return Err(Errores::InvalidSyntax);
    }
    agrupar_expresion(auxiliar)
}

/// The operator that a symbol names, if it names one.
pub open spec fn operador_de(s: Seq<char>) -> Option<Operador> {
    if s == seq!['>'] {
        Some(Operador::Mayor)
    } else if s == seq!['>', '='] {
        Some(Operador::MayorIgual)
    } else if s == seq!['<'] {
        Some(Operador::Menor)
    } else if s == seq!['<', '='] {
        Some(Operador::MenorIgual)
    } else if s == seq!['='] {
        Some(Operador::Igual)
    } else {
        None
    }
}

/// Reads a symbol as an operator.
pub fn leer_operador(s: &Vec<char>) -> (r: Option<Operador>)
    ensures
        r == operador_de(s@),
{
    if s.len() == 1 {
        let c = s[0];
        assert(s@ =~= seq![c]);
        assert(seq!['>'][0] == '>' && seq!['<'][0] == '<' && seq!['='][0] == '=');
        if c == '>' {
            Some(Operador::Mayor)
        } else if c == '<' {
            Some(Operador::Menor)
        } else if c == '=' {
            Some(Operador::Igual)
        } else {
            None
        }
    } else if s.len() == 2 {
        let c = s[0];
        let d = s[1];
        assert(s@ =~= seq![c, d]);
        assert(seq!['>', '='][0] == '>' && seq!['>', '='][1] == '=');
        assert(seq!['<', '='][0] == '<' && seq!['<', '='][1] == '=');
        if d == '=' && c == '>' {
            Some(Operador::MayorIgual)
        } else if d == '=' && c == '<' {
            Some(Operador::MenorIgual)
        } else {
            None
        }
    } else {
        None
    }
}

/// The comparison that the parts of a condition make: the first part is the
/// left operand, the second the operator, and the rest, joined by single
/// spaces, the right operand. An error when there are fewer than three parts
/// or the second one names no operator.
pub open spec fn condicional_de(partes: Seq<Seq<char>>) -> Result<Comparacion, Errores> {
    if partes.len() < 3 {
        Err(Errores::InvalidSyntax)
    } else {
        match operador_de(partes[1]) {
            Some(operador) => Ok(
                Comparacion {
                    operador,
                    miembro1: partes[0],
                    miembro2: unido(partes.skip(2), seq![' ']),
                },
            ),
            None => Err(Errores::InvalidSyntax),
        }
    }
}

/// Whether a condition is the outcome `m` of building one: the same error, or
/// a condition with that view.
pub open spec fn es_condicional(r: Result<Condicional, Errores>, m: Result<Comparacion, Errores>)
    -> bool {
    match m {
        Ok(c) => r is Ok && r->Ok_0@ == c,
        Err(e) => r == Err::<Condicional, Errores>(e),
    }
}

/// Builds a comparison from the parts of a condition.
pub fn parsear_condicional(condicional: &Vec<Vec<char>>) -> (r: Result<Condicional, Errores>)
    ensures
        es_condicional(r, condicional_de(vistas(condicional@))),
{
    if condicional.len() < 3 {
        return Err(Errores::InvalidSyntax);
    }
    let ghost partes = vistas(condicional@);
    assert(partes.skip(2) =~= partes.subrange(2, condicional.len() as int));
    let miembro1 = cadena(&condicional[0]);
    let sep = espacio();
    let miembro2 = cadena(&unir_tramo(condicional, 2, condicional.len(), &sep));
    match leer_operador(&condicional[1]) {
        Some(Operador::Mayor) => Ok(Condicional::Mayor { miembro1, miembro2 }),
        Some(Operador::MayorIgual) => Ok(Condicional::MayorIgual { miembro1, miembro2 }),
        Some(Operador::Menor) => Ok(Condicional::Menor { miembro1, miembro2 }),
        Some(Operador::MenorIgual) => Ok(Condicional::MenorIgual { miembro1, miembro2 }),
        Some(Operador::Igual) => Ok(Condicional::Igual { miembro1, miembro2 }),
        None => Err(Errores::InvalidSyntax),
    }
}

/// The node that a token stands for, given the upper-case form of the token:
/// `NOT`, `AND` and `OR` in any case are connectives that wait for their
/// operands, the parentheses are markers, and every other token is a
/// condition, parted at white space.
pub open spec fn adaptado_con(token: Seq<char>, mayus: Seq<char>) -> Result<Arbol, Errores> {
    if mayus == "NOT"@ {
        Ok(Arbol::Not { derecha: Box::new(Arbol::Unknown) })
    } else if mayus == "AND"@ {
        Ok(Arbol::And { izquierda: Box::new(Arbol::Unknown), derecha: Box::new(Arbol::Unknown) })
    } else if mayus == "OR"@ {
        Ok(Arbol::Or { izquierda: Box::new(Arbol::Unknown), derecha: Box::new(Arbol::Unknown) })
    } else if mayus == "("@ {
        Ok(Arbol::Ipar)
    } else if mayus == ")"@ {
        Ok(Arbol::Dpar)
    } else {
        match condicional_de(palabras(token)) {
            Ok(condicional) => Ok(Arbol::Operacion { condicional }),
            Err(e) => Err(e),
        }
    }
}

/// The node that a token stands for.
pub open spec fn adaptado(token: Seq<char>) -> Result<Arbol, Errores> {
    adaptado_con(token, mayusculas(token))
}

/// The node that `token` stands for, where `mayus` is its upper-case form.
pub fn adaptar_token(token: &str, mayus: &str) -> (r: Result<Expresion, Errores>)
    ensures
        es_resultado(r, adaptado_con(token@, mayus@)),
{
    proof {
        reveal_with_fuel(arbol_de, 2);
    }
    let m = caracteres(mayus);
    if iguales(&m, &caracteres("NOT")) {
        Ok(Expresion::Not { derecha: Box::new(Expresion::Unknown) })
    } else if iguales(&m, &caracteres("AND")) {
        Ok(
            Expresion::And {
                izquierda: Box::new(Expresion::Unknown),
                derecha: Box::new(Expresion::Unknown),
            },
        )
    } else if iguales(&m, &caracteres("OR")) {
        Ok(
            Expresion::Or {
                izquierda: Box::new(Expresion::Unknown),
                derecha: Box::new(Expresion::Unknown),
            },
        )
    } else if iguales(&m, &caracteres("(")) {
        Ok(Expresion::Ipar)
    } else if iguales(&m, &caracteres(")")) {
        Ok(Expresion::Dpar)
    } else {
        let partes = partir_espacios(&caracteres(token));
        match parsear_condicional(&partes) {
            Ok(condicional) => Ok(Expresion::Operacion { condicional }),
            Err(e) => Err(e),
        }
    }
}

/// The nodes that the tokens of a clause stand for, one for each token and in
/// their order; an error when one of the tokens is a malformed condition.
pub open spec fn adaptados(tokens: Seq<Seq<char>>) -> Result<Seq<Arbol>, Errores> {
    if forall|i: int| 0 <= i < tokens.len() ==> (#[trigger] adaptado(tokens[i])) is Ok {
        Ok(Seq::new(tokens.len(), |i: int| adaptado(tokens[i])->Ok_0))
    } else {
        Err(Errores::InvalidSyntax)
    }
}

/// Whether a list of expressions is the outcome `m` of adapting a clause: the
/// same error, or a list with those views.
pub open spec fn es_adaptacion(r: Result<Vec<Expresion>, Errores>, m: Result<Seq<Arbol>, Errores>)
    -> bool {
    match m {
        Ok(s) => r is Ok && vistas(r->Ok_0@) == s,
        Err(e) => r == Err::<Vec<Expresion>, Errores>(e),
    }
}

/// Turns each token of a clause into the node that it stands for.
pub fn adaptar_where(clausula_where: Vec<String>) -> (r: Result<Vec<Expresion>, Errores>)
    ensures
        es_adaptacion(r, adaptados(vistas(clausula_where@))),
{
    let ghost tokens = vistas(clausula_where@);
    let mut expresiones: Vec<Expresion> = Vec::new();
    let mut i: usize = 0;
    while i < clausula_where.len()
        invariant
            i <= clausula_where.len(),
            tokens == vistas(clausula_where@),
            expresiones.len() == i,
            forall|k: int|
                0 <= k < i ==> (#[trigger] adaptado(tokens[k])) == Ok::<Arbol, Errores>(
                    expresiones@[k]@,
                ),
        decreases clausula_where.len() - i,
    {
        let actual = clausula_where[i].as_str();
        let mayus = pasar_a_mayusculas(actual);
        match adaptar_token(actual, mayus.as_str()) {
            Ok(e) => {
                expresiones.push(e);
            },
            Err(e) => {
                assert(adaptado(tokens[i as int]) is Err);
                return Err(e);
            },
        }
        i += 1;
    }
    assert(vistas(expresiones@) =~= adaptados(tokens)->Ok_0);
    Ok(expresiones)
}

/// The expression that the tokens of a clause compile into. A clause without
/// tokens gives the node that accepts every row.
pub open spec fn compilado(tokens: Seq<Seq<char>>) -> Result<Arbol, Errores> {
    if tokens.len() == 0 {
        Ok(Arbol::Unknown)
    } else {
        match adaptados(tokens) {
            Err(e) => Err(e),
            Ok(s) => match subexpresiones(s) {
                Ok(a) => Ok(a),
                Err(_) => Err(Errores::InvalidSyntax),
            },
        }
    }
}

/// Compiles the tokens of a clause into one expression. The expression of a
/// clause that has tokens is a whole tree: no operand is left unbound in it
/// and no parenthesis marker stands in it.
pub fn parsear_expresion(clausula_where: Vec<String>) -> (r: Result<Expresion, Errores>)
    ensures
        es_resultado(r, compilado(vistas(clausula_where@))),
        clausula_where.len() > 0 && r is Ok ==> completo(r->Ok_0@),
{
    if clausula_where.len() == 0 {
        return Ok(Expresion::Unknown);
    }
    let adaptada: Vec<Expresion> = match adaptar_where(clausula_where) {
        Err(e) => return Err(e),
        Ok(adap) => adap,
    };
    match obtener_subexpresiones(adaptada) {
        Ok(c_w) => Ok(c_w),
        Err(_) => Err(Errores::InvalidSyntax),
    }
}

/// Whether every character of `s` is one of the digits `0` to `9`. The
/// empty text counts.
pub open spec fn solo_digitos(s: Seq<char>) -> bool {
    forall|i: int| 0 <= i < s.len() ==> '0' <= #[trigger] s[i] <= '9'
}

/// Decides `solo_digitos`.
pub fn es_numero(cadena: &Vec<char>) -> (r: bool)
    ensures
        r == solo_digitos(cadena@),
{
    let mut i: usize = 0;
    while i < cadena.len()
        invariant
            i <= cadena.len(),
            forall|k: int| 0 <= k < i ==> '0' <= #[trigger] cadena@[k] <= '9',
        decreases cadena.len() - i,
    {
        let c = cadena[i];
        if !('0' <= c && c <= '9') {
            return false;
        }
        i += 1;
    }
    true
}

/// The field of the row `linea` that the column named `miembro` holds: none
/// when `indices` has no such column or the row is too short for it.
pub open spec fn valor_de(
    miembro: Seq<char>,
    linea: Seq<Seq<char>>,
    indices: Map<Seq<char>, usize>,
) -> Option<Seq<char>> {
    if indices.contains_key(miembro) && indices[miembro] < linea.len() {
        Some(linea[indices[miembro] as int])
    } else {
        None
    }
}

/// Whether a text is the value `m`: absent when `m` is, else those
/// characters.
pub open spec fn es_texto(r: Option<Vec<char>>, m: Option<Seq<char>>) -> bool {
    match m {
        Some(s) => r is Some && r->Some_0@ == s,
        None => r is None,
    }
}

/// Looks up the field of the row `linea` for the column named `miembro`.
pub fn obtener_valor(miembro: &str, linea: &Vec<String>, indice_columnas: &StringHashMap<usize>)
    -> (r: Option<Vec<char>>)
    ensures
        es_texto(r, valor_de(miembro@, vistas(linea@), indice_columnas@)),
{
    match indice_columnas.get(miembro) {
        Some(indice) => {
            if *indice < linea.len() {
                Some(caracteres(linea[*indice].as_str()))
            } else {
                None
            }
        },
        None => None,
    }
}

/// The text that an operand which names no column stands for: itself when
/// it is made of digits, what its quotes hold when it starts and ends with
/// a single quote, and nothing in any other shape. All the quotes at either
/// end are taken off.
pub open spec fn literal_de(m: Seq<char>) -> Option<Seq<char>> {
    if solo_digitos(m) {
        Some(m)
    } else if m.len() > 0 && m.first() == '\'' && m.last() == '\'' {
        Some(sin_sufijos(sin_prefijos(m, seq!['\'']), seq!['\'']))
    } else {
        None
    }
}

/// Reads an operand that names no column as a literal.
pub fn leer_literal(miembro: &str) -> (r: Option<Vec<char>>)
    ensures
        es_texto(r, literal_de(miembro@)),
{
    let m = caracteres(miembro);
    if es_numero(&m) {
        Some(m)
    } else if m.len() > 0 && m[0] == '\'' && m[m.len() - 1] == '\'' {
        Some(quitar_finales(&quitar_iniciales(&m, '\''), '\''))
    } else {
        None
    }
}

/// Whether the operator holds between two texts, in the order of strings.
/// Digits are compared as text too.
pub open spec fn satisface(operador: Operador, a: Seq<char>, b: Seq<char>) -> bool {
    match operador {
        Operador::Mayor => precede(b, a),
        Operador::MayorIgual => !precede(a, b),
        Operador::Menor => precede(a, b),
        Operador::MenorIgual => !precede(b, a),
        Operador::Igual => a == b,
    }
}

/// Decides `satisface`.
pub fn aplicar_operador(operador: Operador, a: &Vec<char>, b: &Vec<char>) -> (r: bool)
    ensures
        r == satisface(operador, a@, b@),
{
    match operador {
        Operador::Mayor => es_menor(b, a),
        Operador::MayorIgual => !es_menor(a, b),
        Operador::Menor => es_menor(a, b),
        Operador::MenorIgual => !es_menor(b, a),
        Operador::Igual => iguales(a, b),
    }
}

/// What an operand stands for in a row: the field of its column when it
/// names one, else the literal that it is.
pub open spec fn operando_de(
    miembro: Seq<char>,
    linea: Seq<Seq<char>>,
    indices: Map<Seq<char>, usize>,
) -> Option<Seq<char>> {
    if indices.contains_key(miembro) {
        valor_de(miembro, linea, indices)
    } else {
        literal_de(miembro)
    }
}

/// Whether a comparison holds of a row: at least one of its operands names a
/// column, both operands stand for a text, and the operator holds between
/// the two texts.
pub open spec fn comparacion_vale(
    c: Comparacion,
    linea: Seq<Seq<char>>,
    indices: Map<Seq<char>, usize>,
) -> bool {
    let lado1 = operando_de(c.miembro1, linea, indices);
    let lado2 = operando_de(c.miembro2, linea, indices);
    &&& indices.contains_key(c.miembro1) || indices.contains_key(c.miembro2)
    &&& lado1 is Some
    &&& lado2 is Some
    &&& satisface(c.operador, lado1->Some_0, lado2->Some_0)
}

/// Compares two operands in a row.
pub fn comparar_valores(
    miembro1: &str,
    miembro2: &str,
    linea: &Vec<String>,
    indice_columnas: &StringHashMap<usize>,
    comparador: Operador,
) -> (r: bool)
    ensures
        r == comparacion_vale(
            Comparacion { operador: comparador, miembro1: miembro1@, miembro2: miembro2@ },
            vistas(linea@),
            indice_columnas@,
        ),
{
    let columna1 = indice_columnas.contains_key(miembro1);
    let columna2 = indice_columnas.contains_key(miembro2);
    if !columna1 && !columna2 {
        return false;
    }
    let lado1 = if columna1 {
        obtener_valor(miembro1, linea, indice_columnas)
    } else {
        leer_literal(miembro1)
    };
    let lado2 = if columna2 {
        obtener_valor(miembro2, linea, indice_columnas)
    } else {
        leer_literal(miembro2)
    };
    match (lado1, lado2) {
        (Some(a), Some(b)) => aplicar_operador(comparador, &a, &b),
        _ => false,
    }
}

/// Evaluates one comparison in a row.
pub fn evaluar_condicional(
    condicional: &Condicional,
    linea: &Vec<String>,
    indice_columnas: &StringHashMap<usize>,
) -> (r: bool)
    ensures
        r == comparacion_vale(condicional@, vistas(linea@), indice_columnas@),
{
    match condicional {
        Condicional::Mayor { miembro1, miembro2 } => comparar_valores(
            miembro1.as_str(),
            miembro2.as_str(),
            linea,
            indice_columnas,
            Operador::Mayor,
        ),
        Condicional::MayorIgual { miembro1, miembro2 } => comparar_valores(
            miembro1.as_str(),
            miembro2.as_str(),
            linea,
            indice_columnas,
            Operador::MayorIgual,
        ),
        Condicional::Menor { miembro1, miembro2 } => comparar_valores(
            miembro1.as_str(),
            miembro2.as_str(),
            linea,
            indice_columnas,
            Operador::Menor,
        ),
        Condicional::MenorIgual { miembro1, miembro2 } => comparar_valores(
            miembro1.as_str(),
            miembro2.as_str(),
            linea,
            indice_columnas,
            Operador::MenorIgual,
        ),
        Condicional::Igual { miembro1, miembro2 } => comparar_valores(
            miembro1.as_str(),
            miembro2.as_str(),
            linea,
            indice_columnas,
            Operador::Igual,
        ),
    }
}

/// The truth value of an expression in a row. A node that is no connective
/// and no comparison is false.
pub open spec fn evaluado(a: Arbol, linea: Seq<Seq<char>>, indices: Map<Seq<char>, usize>) -> bool
    decreases a,
{
    match a {
        Arbol::Not { derecha } => !evaluado(*derecha, linea, indices),
        Arbol::And { izquierda, derecha } => evaluado(*izquierda, linea, indices) && evaluado(
            *derecha,
            linea,
            indices,
        ),
        Arbol::Or { izquierda, derecha } => evaluado(*izquierda, linea, indices) || evaluado(
            *derecha,
            linea,
            indices,
        ),
        Arbol::Operacion { condicional } => comparacion_vale(condicional, linea, indices),
        _ => false,
    }
}

/// Evaluates an expression in a row.
pub fn evaluar_expresion(
    expresion: &Expresion,
    linea: &Vec<String>,
    indice_columnas: &StringHashMap<usize>,
) -> (r: bool)
    ensures
        r == evaluado(expresion@, vistas(linea@), indice_columnas@),
    decreases expresion,
{
    match expresion {
        Expresion::Not { derecha } => !evaluar_expresion(derecha, linea, indice_columnas),
        Expresion::And { izquierda, derecha } => {
            evaluar_expresion(izquierda, linea, indice_columnas) && evaluar_expresion(
                derecha,
                linea,
                indice_columnas,
            )
        },
        Expresion::Or { izquierda, derecha } => {
            evaluar_expresion(izquierda, linea, indice_columnas) || evaluar_expresion(
                derecha,
                linea,
                indice_columnas,
            )
        },
        Expresion::Operacion { condicional } => evaluar_condicional(
            condicional,
            linea,
            indice_columnas,
        ),
        _ => false,
    }
}

/// The fields of a line of the table: its parts between commas, each without
/// the white space around it.
pub open spec fn campos(linea: Seq<char>) -> Seq<Seq<char>> {
    let partes = partido(linea, ',');
    Seq::new(partes.len(), |i: int| recortado(partes[i]))
}

/// Parts a line of the table into its fields.
pub fn separar_campos(linea: &str) -> (r: Vec<String>)
    ensures
        vistas(r@) == campos(linea@),
{
    let partes = partir(&caracteres(linea), ',');
    let mut r: Vec<String> = Vec::new();
    let mut i: usize = 0;
    while i < partes.len()
        invariant
            i <= partes.len(),
            r.len() == i,
            vistas(partes@) == partido(linea@, ','),
            forall|k: int| 0 <= k < i ==> (#[trigger] r@[k])@ == recortado(partes@[k]@),
        decreases partes.len() - i,
    {
        r.push(cadena(&recortar(&partes[i])));
        i += 1;
    }
    assert(vistas(r@) =~= campos(linea@)) by {
        assert forall|k: int| 0 <= k < partes.len() implies vistas(r@)[k] == campos(linea@)[k] by {
            assert(vistas(partes@)[k] == partes@[k]@);
        }
    }
    r
}

/// Whether a line of the table meets a compiled clause: the clause of no
/// tokens accepts every line, and any other is evaluated in the fields of the
/// line.
pub open spec fn cumple(linea: Seq<char>, a: Arbol, indices: Map<Seq<char>, usize>) -> bool {
    a is Unknown || evaluado(a, campos(linea), indices)
}

/// Tells whether a line of the table meets a compiled clause. It never
/// fails.
pub fn cumple_c_w(
    linea: &str,
    clausula_where: &Expresion,
    indice_columnas: &StringHashMap<usize>,
) -> (r: Result<bool, Errores>)
    ensures
        r == Ok::<bool, Errores>(cumple(linea@, clausula_where@, indice_columnas@)),
{
    if let Expresion::Unknown = clausula_where {
        return Ok(true);
    }
    let campos = separar_campos(linea);
    Ok(evaluar_expresion(clausula_where, &campos, indice_columnas))
}

} // verus!
