//! The verified core of the minimacs text editor: undo history, the command
//! registry, key-chord dispatch, minibuffer prompts and completion, and the
//! text model of a buffer.
use vstd::prelude::*;

pub mod buffer;
pub mod buffers;
pub mod command;
pub mod disk;
pub mod display;
pub mod editing;
pub mod help;
pub mod history;
pub mod input;
pub mod isearch;
pub mod keymap;
pub mod minibuffer;
pub mod naming;
pub mod native;
pub mod order;
pub mod pane;
pub mod path;
pub mod prompts;
pub mod text;

verus! {

} // verus!
