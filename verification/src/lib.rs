//! Unified memory-access layer of a memory-inspection tool.
//!
//! The crate exposes one byte-addressable view over four kinds of memory
//! source: a live process, a dynamically loaded extension, a crash-dump
//! snapshot, and a custom chunked dump format with a trailing index.  The
//! dump codec, the snapshot merge, and the dispatch logic are verified; the
//! few places that must touch the operating system go through small trusted
//! wrappers whose contracts state what the outside calls promise.

pub mod codec;
pub mod command;
pub mod field;
pub mod ident;
pub mod plugin;
pub mod process;
pub mod reader;
pub mod roundtrip;
pub mod snapshot;
pub mod writer;

pub use codec::ChunkEntry;
pub use codec::DumpError;
pub use codec::MemoryChunk;
pub use command::ToolBarResponse;
pub use field::FieldKind;
pub use field::StringPointerField;
pub use field::WideStringPointerField;
pub use field::int_high_low_from_le;
pub use ident::is_valid_ident;
pub use plugin::PluginSession;
pub use process::AccessError;
pub use process::MemoryRegion;
pub use process::Process;
pub use process::ReadOutcome;
pub use process::WriteOutcome;
pub use reader::ConcatenatedDumpReader;
pub use snapshot::Segment;
pub use writer::ConcatenatedDumpWriter;
