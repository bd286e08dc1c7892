pub mod ejecutor_delete;
pub mod ejecutor_implementacion;
pub mod ejecutor_insert;
pub mod ejecutor_select;
pub mod ejecutor_update;
pub mod leyes;
