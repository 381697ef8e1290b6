//! What holds of every classification of a command line.

pub mod answers;
pub mod boundary;
pub mod classes;
pub mod decisions;
pub mod form;
pub mod lookups;
pub mod spelling;
