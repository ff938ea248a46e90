//! House builder logic: colour input, save files, menu flow and input decisions.
pub mod text;
pub mod color;
pub mod savefile;
pub mod flow;
pub mod editing;
