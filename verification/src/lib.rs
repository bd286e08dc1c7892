//! A small query engine for tables kept in comma-separated files: it parses
//! `INSERT`, `UPDATE`, `DELETE` and `SELECT` queries, compiles their `WHERE`
//! clauses into boolean expressions and evaluates them row by row. The
//! library reads and writes no file: it takes the lines of a table and says
//! what is to become of them.

pub mod analizador;
pub mod comandos;
pub mod ejecutor;
pub mod errores;
pub mod texto;
