//! shikigami: a terminal UI for Jujutsu (jj). The library holds what the
//! program decides: the jj command lines and the parsers of what jj
//! prints, the state machine from a key press to the command it runs,
//! the diff cache, and the text each pane shows. Running processes and
//! drawing on the terminal are left to the binary.
pub mod text;
pub mod rich;
pub mod decode;
pub mod process;
pub mod jj;
pub mod cache;
pub mod ai;
pub mod diff_filter;
pub mod editor;
pub mod app;
pub mod ui;
pub mod cli;
