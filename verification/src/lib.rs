//! The decisions of a desktop shell around a web service.
//!
//! The shell is a thin supervisor: it starts the service process, waits for
//! the readiness line that the service prints, and points its window at the
//! URL in that line. Closing the window hides it to the tray; quitting stops
//! the service; an unexpected exit of the service restarts it.
//!
//! This crate holds what the shell decides, as functions and state machines
//! on plain values. Processes, signals, files, clocks and windows are handled
//! by the program around it, which carries out the actions that the crate
//! calls for and reports back.

pub mod command;
pub mod service;
pub mod settings;
pub mod shell;
pub mod stop;
pub mod text;
pub mod ui;
