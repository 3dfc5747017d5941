//! A terminal: a scrollback of commands and their output, and a dashboard for
//! programs that take over the screen.
pub mod action_laws;
pub mod altscreen_detect;
pub mod command;
pub mod dashboard;
pub mod emulator;
pub mod escape;
pub mod folder_laws;
pub mod identity_laws;
pub mod interactive_detect;
pub mod keys;
pub mod localize;
pub mod output;
pub mod output_laws;
pub mod parser;
pub mod path;
pub mod path_laws;
pub mod pen_laws;
pub mod provider;
pub mod provider_laws;
pub mod provider_model;
pub mod session_laws;
pub mod sgr;
pub mod shell;
pub mod shell_laws;
pub mod sys;
pub mod terminal;
pub mod terminal_laws;
pub mod text;
pub mod text_laws;
