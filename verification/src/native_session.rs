//! Configuration, summaries and errors of the native terminal session runtime.
use vstd::prelude::*;
use crate::emulator::AlacrittyEmulatorConfig;

verus! {

/// Startup parameters for the single-session native terminal runtime.
#[derive(Debug, Clone)]
pub struct NativeTerminalSessionConfig {
    pub cwd: String,
    pub rows: u16,
    pub cols: u16,
    pub scrollback: usize,
}

impl NativeTerminalSessionConfig {
    /// The emulator parameters of this session.
    pub fn emulator_config(&self) -> (config: AlacrittyEmulatorConfig)
        ensures
            config.rows == self.rows,
            config.cols == self.cols,
            config.scrollback == self.scrollback,
    {
        AlacrittyEmulatorConfig { rows: self.rows, cols: self.cols, scrollback: self.scrollback }
    }
}

/// Errors surfaced by the native PTY runtime.
#[derive(Debug)]
pub enum NativeTerminalError {
    CreatePty(String),
    StartShell { cwd: String, details: String },
    OpenWriter(String),
    OpenReader(String),
    WriteInput(String),
    FlushInput(String),
    ResizePty(String),
}

/// Size, revision and liveness of a native session.
#[derive(Debug, Clone, Copy, PartialEq, Eq, Structural)]
pub struct NativeTerminalSessionSummary {
    pub rows: u16,
    pub cols: u16,
    pub revision: u64,
    pub closed: bool,
}

} // verus!
