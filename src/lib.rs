//! Capability traits for containers, with contracts over abstract models,
//! and a verified dictionary that meets them.

pub mod generic_containers;
pub mod interfaces;
pub mod laws;
pub mod vec_dictionary;

pub use generic_containers::{Container, DynamicContainer, Iterable};
pub use interfaces::{Array, BorrowMap, CopyDictionary, CopyMap, Dictionary, DynamicArray};
pub use vec_dictionary::VecDictionary;
