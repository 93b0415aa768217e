//! The state of the terminal interface: which view has the focus, which fuzz
//! target is selected, and what a key does. Drawing is left to the program
//! that owns the terminal.

pub mod framework;
pub mod horizontal_list_view;
pub mod initialized;
pub mod run_fuzz;
