//! A config-driven command palette.
//!
//! The library takes what was read from files, from the terminal and from child
//! processes as plain values and decides what follows: which menu a configuration
//! file describes (`config`), in which order its items are listed (`order`), what
//! is drawn (`render`) and what each event in the interactive menu leads to
//! (`session`). It performs no input or output itself.
pub mod binding;
pub mod color;
pub mod command;
pub mod config;
pub mod error;
pub mod identity;
pub mod keys;
pub mod menu;
pub mod options;
pub mod order;
pub mod recent;
pub mod render;
pub mod search;
pub mod session;
pub mod terminal;
pub mod text;
