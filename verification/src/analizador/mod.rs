pub mod analizador_implementacion;
pub mod condicional;
pub mod expresion;
pub mod leyes;
