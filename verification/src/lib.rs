//! Verified core of an MCP server for the Compact toolchain.

pub mod analyze;
pub mod artifacts;
pub mod diagnostic;
pub mod error;
pub mod import_scan;
pub mod jobs;
pub mod json;
pub mod order;
pub mod path;
pub mod server;
pub mod text;
pub mod time;
pub mod toolchain;
pub mod workspace;

pub use analyze::MAX_SOURCE_BYTES;
pub use diagnostic::{Diagnostic, Position, Severity, Source, Span};
pub use error::CoreError;
pub use import_scan::assert_imports_contained;
pub use toolchain::Toolchain;
pub use workspace::{TempScope, Workspace};
