//! A verified profile-block engine for a declarative display configuration
//! language: it scans a configuration text for `profile <name> { ... }`
//! blocks while honouring comments and quoted strings, replaces or appends a
//! named block without disturbing surrounding content, and renders profile
//! blocks from display-output snapshots.

pub mod errors;
pub mod heads;
pub mod json;
pub mod laws;
pub mod paths;
pub mod render;
pub mod scan;
pub mod snapshot;
pub mod text;
pub mod upsert;

pub use errors::GenerateError;
pub use heads::build_output_snapshots;
pub use heads::HeadModeSnapshot;
pub use heads::HeadSnapshot;
pub use json::collect_outputs_from_json;
pub use json::generate_profile_from_slice;
pub use paths::default_config_path;
pub use paths::temp_file_name;
pub use render::escape_kanshi_quoted;
pub use render::generate_profile_from_outputs;
pub use render::render_profile;
pub use snapshot::normalize_transform_str;
pub use snapshot::normalize_transform_u32;
pub use snapshot::ModeSnapshot;
pub use snapshot::OutputSnapshot;
pub use snapshot::PositionSnapshot;
pub use upsert::append_profile;
pub use upsert::upsert_profile_in_config;
pub use scan::is_profile_start;
pub use scan::parse_profile_blocks;
pub use scan::ProfileBlock;
pub use text::is_identifier_char;
