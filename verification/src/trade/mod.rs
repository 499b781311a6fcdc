pub mod structs;
pub mod statistics;
pub mod utils_cell;
pub mod orders_collector;
pub mod step;
