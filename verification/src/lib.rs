//! Text-processing library: command-line parsing for the text processor,
//! text statistics, and the exercises that lead up to them.
pub mod commands;
pub mod config;
pub mod error;
pub mod lessons;
pub mod processor;
pub mod text;
