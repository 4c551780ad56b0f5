pub mod rawmaster;
pub mod spawn_table_structs;
