//! The errors of the engine and the lines that report them.

use crate::texto::{anexar, cadena, caracteres};
use vstd::prelude::*;

verus! {

/// The ways in which a query can fail.
#[derive(Debug, PartialEq, Eq, Structural, Clone, Copy)]
pub enum Errores {
    /// The file that holds the table is missing, unreadable or malformed.
    InvalidTable,
    /// A column named by the query does not exist in the table.
    InvalidColumn,
    /// The query text is malformed.
    InvalidSyntax,
    /// Any other failure.
    Error,
}

impl Errores {
    /// The label under which an error is reported.
    pub open spec fn etiqueta(self) -> Seq<char> {
        match self {
            Errores::InvalidTable => "INVALID_TABLE"@,
            Errores::InvalidColumn => "INVALID_COLUMN"@,
            Errores::InvalidSyntax => "INVALID_SYNTAX"@,
            Errores::Error => "ERROR"@,
        }
    }
}

/// The line that reports an error: its label between square brackets, a
/// colon, a space and the description.
pub open spec fn mensaje_de(error: Errores, descripcion: Seq<char>) -> Seq<char> {
    seq!['['] + error.etiqueta() + seq![']', ':', ' '] + descripcion
}

/// Gives the line that reports an error with a description of it.
pub fn mensaje_error(error: Errores, descripcion: &str) -> (r: String)
    ensures
        r@ == mensaje_de(error, descripcion@),
{
    let tipo = match error {
        Errores::InvalidTable => "INVALID_TABLE",
        Errores::InvalidColumn => "INVALID_COLUMN",
        Errores::InvalidSyntax => "INVALID_SYNTAX",
        Errores::Error => "ERROR",
    };
    let mut linea: Vec<char> = Vec::new();
    linea.push('[');
    anexar(&mut linea, &caracteres(tipo));
    linea.push(']');
    linea.push(':');
    linea.push(' ');
    anexar(&mut linea, &caracteres(descripcion));
    assert(linea@ =~= mensaje_de(error, descripcion@));
    cadena(&linea)
}

} // verus!
