//! Support for Looking Glass RES archives.

pub mod directory;
pub mod error;
pub mod metadata;
pub mod reader;
pub mod source;

pub use directory::DirectoryList;
pub use error::{Error, ErrorKind};
pub use metadata::{DirectoryEntry, DirectoryHeader, FileHeader, ResourceFlags, ResourceType};
pub use reader::{Reader, Resource};
pub use source::{MemorySource, Source};
