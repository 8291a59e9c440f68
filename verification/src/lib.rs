//! A verified core for a terminal todo-list editor.
//!
//! The library holds everything the editor decides or computes: the
//! line-oriented checklist codec, the ordered item store, the modal edit
//! session state machine, and the renderer that projects the session onto
//! terminal draw commands. Terminal control and file access live outside,
//! in a thin unverified shell that feeds key events in and carries draw
//! commands and document text out.

pub mod codec;
pub mod item;
pub mod render;
pub mod session;
pub mod store;
pub mod text;
