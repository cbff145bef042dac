//! Decision logic of a mobile EasyTier front end: the policy on configurations,
//! the table of running instances, the latest error, the callbacks, and the
//! in-memory core log with its export.
//!
//! EasyTier itself, threads and C pointers are left to the caller. Operations that
//! need the instance manager are given as steps, see `session`.
pub mod api;
pub mod config;
pub mod core_logs;
pub mod errors;
pub mod infos;
pub mod instances;
pub mod json;
pub mod log_buffer;
pub mod log_line;
pub mod session;
pub mod session_laws;
pub mod text;
pub mod watch;
