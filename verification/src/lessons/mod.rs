//! The exercises that lead up to the text processor, one module per topic.
pub mod borrowing;
pub mod enums;
pub mod error_handling;
pub mod generics;
pub mod lifetimes;
pub mod ownership;
