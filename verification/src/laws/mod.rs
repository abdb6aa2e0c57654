//! What holds of the library as a whole.

pub mod balance;
pub mod checks;
pub mod choice;
pub mod connect;
pub mod control;
pub mod counts;
pub mod outcomes;
pub mod placement;
pub mod refresh;
pub mod rows;
pub mod sessions;
pub mod settings;
pub mod text;
