//! The row store's side of the core: the rows it hands over, how they turn
//! into the records of `models`, and a store that keeps its rows in memory.

pub mod models;
pub mod transform;
