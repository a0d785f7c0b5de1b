//! A line and word counting library.
//!
//! The library discovers regular files under a root (modelled as a
//! directory tree), splits them fairly across a requested number of jobs,
//! counts newline characters or alphanumeric words in each file's text,
//! and combines the partial counts into one total per root.

mod app;
mod counter;
mod engine;
mod parser;

pub use app::App;
pub use counter::is_excluded_name;
pub use counter::Counter;
pub use counter::FsEntry;
pub use engine::handle;
pub use parser::resolve_jobs;
pub use parser::Parser;
