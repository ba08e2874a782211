//! A restricted interactive wrapper shell library: shell-word expansion,
//! line-editor state handling, command history, and tab-completion search,
//! all with machine-checked contracts.
//!
//! The library is the deciding half of the shell: every scanning pass,
//! editing step and history rule lives here, stated in contracts and
//! proved. The embedding application owns the terminal, the file system
//! and the processes, and hands plain values in and out.

pub mod argv;
pub mod builtins;
pub mod completion;
pub mod editor;
pub mod error;
pub mod globs;
pub mod history;
pub mod session;
pub mod text;
