pub mod grid_table;
pub mod markdown;
