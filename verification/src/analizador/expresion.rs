//! The boolean expressions that a clause compiles into.

use crate::analizador::condicional::{Comparacion, Condicional};
use vstd::prelude::*;

verus! {

/// A boolean expression over comparisons, and the markers that stand in a
/// clause while it is being grouped.
#[derive(Debug, PartialEq, Eq)]
pub enum Expresion {
    /// The negation of an expression.
    Not { derecha: Box<Expresion> },
    /// The conjunction of two expressions.
    And { izquierda: Box<Expresion>, derecha: Box<Expresion> },
    /// The disjunction of two expressions.
    Or { izquierda: Box<Expresion>, derecha: Box<Expresion> },
    /// One comparison.
    Operacion { condicional: Condicional },
    /// An operand that has not been bound yet.
    Unknown,
    /// An opening parenthesis.
    Ipar,
    /// A closing parenthesis.
    Dpar,
}

/// What an `Expresion` stands for: the same tree over the text of its
/// comparisons.
pub enum Arbol {
    Not { derecha: Box<Arbol> },
    And { izquierda: Box<Arbol>, derecha: Box<Arbol> },
    Or { izquierda: Box<Arbol>, derecha: Box<Arbol> },
    Operacion { condicional: Comparacion },
    Unknown,
    Ipar,
    Dpar,
}

/// The tree that `e` stands for.
pub open spec fn arbol_de(e: Expresion) -> Arbol
    decreases e,
{
    match e {
        Expresion::Not { derecha } => Arbol::Not { derecha: Box::new(arbol_de(*derecha)) },
        Expresion::And { izquierda, derecha } => Arbol::And {
            izquierda: Box::new(arbol_de(*izquierda)),
            derecha: Box::new(arbol_de(*derecha)),
        },
        Expresion::Or { izquierda, derecha } => Arbol::Or {
            izquierda: Box::new(arbol_de(*izquierda)),
            derecha: Box::new(arbol_de(*derecha)),
        },
        Expresion::Operacion { condicional } => Arbol::Operacion { condicional: condicional@ },
        Expresion::Unknown => Arbol::Unknown,
        Expresion::Ipar => Arbol::Ipar,
        Expresion::Dpar => Arbol::Dpar,
    }
}

impl View for Expresion {
    type V = Arbol;

    open spec fn view(&self) -> Arbol {
        arbol_de(*self)
    }
}

} // verus!
