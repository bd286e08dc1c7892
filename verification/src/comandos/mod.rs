pub mod comandos_implementacion;
