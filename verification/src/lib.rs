//! Random names of the form `adjective-adjective-animal`, drawn from two word
//! lists with a caller-supplied source of indices.

pub mod generator;
pub mod lines;
pub mod source;
pub mod store;
pub mod summary;

pub use generator::{join_name, Draw, MAX_ATTEMPTS};
pub use lines::split_lines;
pub use source::IndexSource;
pub use store::{GoofyAnimals, WordListError, WordLists};
