//! The order books and what they are made of.

pub mod book;
pub mod book_laws;
pub mod coin_map;
pub mod decimal;
pub mod decimal_laws;
pub mod level_laws;
pub mod levels;
pub mod multi_book;
pub mod rounding;
pub mod types;
