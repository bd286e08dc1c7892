//! The comparisons that a clause is made of.

use vstd::prelude::*;

verus! {

/// One comparison of two operands. The operands are kept as they were
/// written: a quoted literal still has its quotes.
#[derive(Debug, PartialEq, Eq)]
pub enum Condicional {
    /// `miembro1 > miembro2`
    Mayor { miembro1: String, miembro2: String },
    /// `miembro1 >= miembro2`
    MayorIgual { miembro1: String, miembro2: String },
    /// `miembro1 < miembro2`
    Menor { miembro1: String, miembro2: String },
    /// `miembro1 <= miembro2`
    MenorIgual { miembro1: String, miembro2: String },
    /// `miembro1 = miembro2`
    Igual { miembro1: String, miembro2: String },
}

/// The five comparison operators.
#[derive(Debug, PartialEq, Eq, Structural, Clone, Copy)]
pub enum Operador {
    /// `>`
    Mayor,
    /// `>=`
    MayorIgual,
    /// `<`
    Menor,
    /// `<=`
    MenorIgual,
    /// `=`
    Igual,
}

/// What a `Condicional` stands for: an operator and the text of its two
/// operands.
pub struct Comparacion {
    pub operador: Operador,
    pub miembro1: Seq<char>,
    pub miembro2: Seq<char>,
}

impl View for Condicional {
    type V = Comparacion;

    open spec fn view(&self) -> Comparacion {
        match self {
            Condicional::Mayor { miembro1, miembro2 } => Comparacion {
                operador: Operador::Mayor,
                miembro1: miembro1@,
                miembro2: miembro2@,
            },
            Condicional::MayorIgual { miembro1, miembro2 } => Comparacion {
                operador: Operador::MayorIgual,
                miembro1: miembro1@,
                miembro2: miembro2@,
            },
            Condicional::Menor { miembro1, miembro2 } => Comparacion {
                operador: Operador::Menor,
                miembro1: miembro1@,
                miembro2: miembro2@,
            },
            Condicional::MenorIgual { miembro1, miembro2 } => Comparacion {
                operador: Operador::MenorIgual,
                miembro1: miembro1@,
                miembro2: miembro2@,
            },
            Condicional::Igual { miembro1, miembro2 } => Comparacion {
                operador: Operador::Igual,
                miembro1: miembro1@,
                miembro2: miembro2@,
            },
        }
    }
}

} // verus!
