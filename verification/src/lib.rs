//! The core of an order book listener.
//!
//! A node writes three streams of files: the statuses of orders, the changes of its order books,
//! and the fills. The listener reads them, pairs statuses and changes block by block, keeps the
//! books of all coins, and tells its subscribers of every block and of the books' aggregated
//! views. Now and then it holds its books against a snapshot that it asks the node for.
//!
//! - [`order_book`] has the books: orders in price-time priority, levels, roundings.
//! - [`types`] has what the node writes and what subscribers read.
//! - [`listeners`] has the listener: the state at a block, the queues of batches, the work on
//!   lines, the comparison with a snapshot, and the decisions of when to fetch, wait or stop.
//! - [`lines`] and [`text`] split data into lines and work on texts.
//! - [`address`] and [`par`] hold what is taken from other crates on trust.
//!
//! The modules whose names end in `_laws` state, and prove, what holds of all this together: what
//! each diff does to a book, what a trade says of its fills, what a fetched snapshot leads to, how
//! batches and lines are worked through, and what the messages say.
//!
//! Files, clocks, the network and the node's JSON are left to the program around the library.

pub mod address;
pub mod lines;
pub mod listeners;
pub mod order_book;
pub mod par;
pub mod text;
pub mod types;
