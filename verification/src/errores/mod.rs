pub mod errores_implementacion;
