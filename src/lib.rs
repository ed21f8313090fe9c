//! An in-memory table of fixed-size records kept sorted by every column at
//! once, with rank lookup and a paginator that serves fixed-height screens
//! of any column in either direction.
pub mod client;
pub mod index;
pub mod levels;
pub mod paginator;
pub mod record;
pub mod table;
