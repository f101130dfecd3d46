//! What follows the node's data directories.

pub mod order_book;
