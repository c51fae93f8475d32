//! A role-playing character's sheet: three resource pools, the buttons that
//! change them, and the text file that keeps them.

pub mod decimal;
pub mod lines;
pub mod character;
pub mod save_file;
