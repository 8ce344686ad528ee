//! Codec for the PAK resource-archive container format: versioned binary
//! headers, entry and alias tables, magic-byte content classification, the
//! vendor brotli compression envelope, and the textual sidecar manifest that
//! makes pack/unpack round-trippable.
pub mod pak_brotli;
pub mod pak_def;
pub mod pak_error;
pub mod pak_file;
pub mod pak_file_io;
pub mod pak_file_type;
pub mod pak_header;
pub mod pak_index;
pub mod pak_pack;
pub mod pak_unpack;
