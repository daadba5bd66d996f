//! Reader for ASAR archives: a fixed binary prefix, a JSON index of the
//! packed tree, and the concatenated contents of every file.

pub mod archive;
pub mod cli;
pub mod error;
pub mod extract;
pub mod header;
pub mod json;
pub mod listing;
pub mod order;
pub mod path;

pub use archive::AsarFile;
pub use cli::{Args, Commands};
pub use error::AsarError;
pub use extract::{Destination, ExtractStep, Extractor, Phase, StepOutcome};
pub use header::parse_header;
pub use listing::{AsarEntry, AsarFileEntry};
