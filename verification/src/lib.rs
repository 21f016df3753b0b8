pub mod text;
pub mod seqs;
pub mod state;
pub mod knowledge;
pub mod commands;
pub mod panel_dock;
pub mod terminal_model;
pub mod native_session;
pub mod terminal_text;
pub mod native_frame;
pub mod wrap_policy;
pub mod insert_mode;
pub mod file_browser;
pub mod workspace;
pub mod commit_graph;
pub mod prompt_text;
pub mod clock;
pub mod emulator_projection;
pub mod emulator;
pub mod raster;
pub mod terminal_raster;
pub mod app_state;
pub mod startup;
pub mod git_refresh;
pub mod terminal_input;
pub mod shortcuts;
pub mod notes;
pub mod panels;
pub mod review;
pub mod scroll;
pub mod autosave;
pub mod resize_poll;
