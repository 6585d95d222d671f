//! A minimal process-debugger core together with the small verified
//! libraries that grew up around it: byte-patch arithmetic for software
//! breakpoints, a breakpoint registry, an execution-controller state
//! machine, a frame-pointer stack walker, and a handful of list and
//! text utilities.

pub mod breakpoint;
pub mod controller;
pub mod diff;
pub mod grid;
pub mod hangman;
pub mod inferior;
pub mod linked_list;
pub mod parse;
pub mod patch;
pub mod process_info;
pub mod reorder;
pub mod session;
pub mod stack;
pub mod symbols;
pub mod trace;
pub mod warmup;
pub mod wc;
