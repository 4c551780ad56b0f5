pub mod map;
pub mod map_builders;
pub mod random_table;
pub mod raws;
pub mod rect;
pub mod rng;
pub mod spawner;
