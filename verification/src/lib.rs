//! Core of a command wrapper that mirrors a live byte stream to the terminal
//! while keeping a rolling window of recent output lines and pushing periodic
//! status notifications through a dedicated dispatch worker.

pub mod config;
pub mod directory;
pub mod messenger;
pub mod output;
pub mod ring;
pub mod scheduler;
pub mod tee;
