//! The failure kinds of the library, and their human-readable descriptions.

use vstd::prelude::*;
use crate::text::{chars_to_string, push_str_chars, push_u64_dec, spec_udec};

verus! {

/// Everything that can go wrong while collecting output state, rendering a
/// profile block, or merging it into a configuration text or file.
#[derive(Debug)]
pub enum GenerateError {
    /// The output-state document was not valid JSON of the expected shape.
    ParseJson { details: String },
    /// The requested profile name was blank.
    EmptyProfileName,
    /// An enabled output had no current or preferred mode.
    MissingMode { output: String },
    /// An enabled output had no position.
    MissingPosition { output: String },
    /// An enabled output had no scale.
    MissingScale { output: String },
    /// Neither of the environment variables that locate the configuration
    /// file was set.
    ConfigPathUnavailable,
    /// The configuration file could not be read.
    ConfigRead { path: String, details: String },
    /// The configuration file could not be written.
    ConfigWrite { path: String, details: String },
    /// The configuration text had a malformed profile block.
    ConfigParse { details: String },
    /// More than one block carries the requested profile name.
    DuplicateProfileName { profile_name: String, count: usize },
    /// No connection to the display server could be made.
    WaylandConnect { details: String },
    /// The display server does not offer the output-management protocol.
    WaylandProtocolUnsupported,
    /// The output-management protocol exchange failed.
    WaylandProtocolError { details: String },
    /// The initial output-state synchronisation never completed.
    WaylandSyncTimeout,
}

/// The description `message` produces for each failure kind.
pub open spec fn spec_error_message(e: GenerateError) -> Seq<char> {
    match e {
        GenerateError::ParseJson { details } => "failed to parse input output JSON"@,
        GenerateError::EmptyProfileName => "profile name cannot be empty"@,
        GenerateError::MissingMode { output } => "output `"@ + output@
            + "` is enabled but has no current or preferred mode"@,
        GenerateError::MissingPosition { output } => "output `"@ + output@
            + "` is enabled but has no position"@,
        GenerateError::MissingScale { output } => "output `"@ + output@
            + "` is enabled but has no scale"@,
        GenerateError::ConfigPathUnavailable => "could not resolve default kanshi config path: set XDG_CONFIG_HOME or HOME"@,
        GenerateError::ConfigRead { path, details } => "failed to read kanshi config `"@ + path@
            + "`"@,
        GenerateError::ConfigWrite { path, details } => "failed to write kanshi config `"@ + path@
            + "`"@,
        GenerateError::ConfigParse { details } => "failed to parse kanshi config: "@ + details@,
        GenerateError::DuplicateProfileName { profile_name, count } => "found duplicate profile `"@
            + profile_name@ + "` in kanshi config ("@ + spec_udec(count as int) + " blocks)"@,
        GenerateError::WaylandConnect { details } => "failed to connect to Wayland compositor: "@
            + details@,
        GenerateError::WaylandProtocolUnsupported => "compositor does not support zwlr_output_manager_v1 (wlr-output-management-unstable-v1)"@,
        GenerateError::WaylandProtocolError { details } => "failed to communicate with Wayland output-management protocol: "@
            + details@,
        GenerateError::WaylandSyncTimeout => "timed out waiting for initial output-management state sync"@,
    }
}

impl GenerateError {
    /// A human-readable description of the failure.
    pub fn message(&self) -> (r: String)
        ensures
            r@ == spec_error_message(*self),
    {
        let mut m: Vec<char> = Vec::new();
        match self {
            GenerateError::ParseJson { details } => {
                push_str_chars(&mut m, "failed to parse input output JSON");
            },
            GenerateError::EmptyProfileName => {
                push_str_chars(&mut m, "profile name cannot be empty");
            },
            GenerateError::MissingMode { output } => {
                push_str_chars(&mut m, "output `");
                push_str_chars(&mut m, output.as_str());
                push_str_chars(&mut m, "` is enabled but has no current or preferred mode");
            },
            GenerateError::MissingPosition { output } => {
                push_str_chars(&mut m, "output `");
                push_str_chars(&mut m, output.as_str());
                push_str_chars(&mut m, "` is enabled but has no position");
            },
            GenerateError::MissingScale { output } => {
                push_str_chars(&mut m, "output `");
                push_str_chars(&mut m, output.as_str());
                push_str_chars(&mut m, "` is enabled but has no scale");
            },
            GenerateError::ConfigPathUnavailable => {
                push_str_chars(
                    &mut m,
                    "could not resolve default kanshi config path: set XDG_CONFIG_HOME or HOME",
                );
            },
            GenerateError::ConfigRead { path, details } => {
                push_str_chars(&mut m, "failed to read kanshi config `");
                push_str_chars(&mut m, path.as_str());
                push_str_chars(&mut m, "`");
            },
            GenerateError::ConfigWrite { path, details } => {
                push_str_chars(&mut m, "failed to write kanshi config `");
                push_str_chars(&mut m, path.as_str());
                push_str_chars(&mut m, "`");
            },
            GenerateError::ConfigParse { details } => {
                push_str_chars(&mut m, "failed to parse kanshi config: ");
                push_str_chars(&mut m, details.as_str());
            },
            GenerateError::DuplicateProfileName { profile_name, count } => {
                push_str_chars(&mut m, "found duplicate profile `");
                push_str_chars(&mut m, profile_name.as_str());
                push_str_chars(&mut m, "` in kanshi config (");
                push_u64_dec(&mut m, *count as u64);
                push_str_chars(&mut m, " blocks)");
            },
            GenerateError::WaylandConnect { details } => {
                push_str_chars(&mut m, "failed to connect to Wayland compositor: ");
                push_str_chars(&mut m, details.as_str());
            },
            GenerateError::WaylandProtocolUnsupported => {
                push_str_chars(
                    &mut m,
                    "compositor does not support zwlr_output_manager_v1 (wlr-output-management-unstable-v1)",
                );
            },
            GenerateError::WaylandProtocolError { details } => {
                push_str_chars(
                    &mut m,
                    "failed to communicate with Wayland output-management protocol: ",
                );
                push_str_chars(&mut m, details.as_str());
            },
            GenerateError::WaylandSyncTimeout => {
                push_str_chars(&mut m, "timed out waiting for initial output-management state sync");
            },
        }
        proof {
            assert(m@ =~= spec_error_message(*self));
        }
        chars_to_string(&m)
    }
}

} // verus!
