//! Error taxonomy: user-facing configuration errors and internal
//! processing errors, each with its rendered message line.
use vstd::prelude::*;

use crate::text::{dec_rep, push_u64};

verus! {

/// Errors caused by how the tool was invoked or configured.
#[derive(Debug)]
pub enum CliError {
    NoCommand,
    UnknownCommand(String),
    ConfigNotFound(String),
    ConfigRead(String),
    ConfigParse(String),
    /// A requested 1-based frame range (start, end), and the frame count
    /// it exceeds.
    InvalidFrameRange(usize, usize, usize),
    AccessCurrentDirectory,
    /// A requested 1-based test-frame number, and the frame count.
    InvalidTestFrame(usize, usize),
    /// A batch was requested over a frame collection with no frames.
    EmptyFrameCollection,
}

impl CliError {
    /// The full message line reported for this error.
    pub open spec fn message_spec(&self) -> Seq<char> {
        "v2df: "@ + match self {
            CliError::NoCommand => "Type --help for usage"@,
            CliError::UnknownCommand(cmd) => "Unknown command: '"@ + cmd@ + "'"@,
            CliError::ConfigNotFound(path) => "Failed to find 'v2df_config.json' in directory: "@
                + path@,
            CliError::ConfigRead(e) => "Failed to read 'v2df_config.json': "@ + e@,
            CliError::ConfigParse(e) => "Failed to parse 'v2df_config.json': "@ + e@,
            CliError::InvalidFrameRange(start, end, count) => "Frame range ["@ + dec_rep(
                *start as nat,
            ) + ", "@ + dec_rep(*end as nat) + "] is out of range of frame count: "@ + dec_rep(
                *count as nat,
            ),
            CliError::AccessCurrentDirectory => "Could not access current directory"@,
            CliError::InvalidTestFrame(frame, count) => "Test frame "@ + dec_rep(*frame as nat)
                + " is out of range of frame count: "@ + dec_rep(*count as nat),
            CliError::EmptyFrameCollection => "No frames to process"@,
        } + "\n"@
    }

    pub fn message(&self) -> (r: String)
        ensures
            r@ == self.message_spec(),
    {
        let mut out: String = String::from_str("v2df: ");
        match self {
            CliError::NoCommand => {
                out.append("Type --help for usage");
            },
            CliError::UnknownCommand(cmd) => {
                out.append("Unknown command: '");
                out.append(cmd.as_str());
                out.append("'");
            },
            CliError::ConfigNotFound(path) => {
                out.append("Failed to find 'v2df_config.json' in directory: ");
                out.append(path.as_str());
            },
            CliError::ConfigRead(e) => {
                out.append("Failed to read 'v2df_config.json': ");
                out.append(e.as_str());
            },
            CliError::ConfigParse(e) => {
                out.append("Failed to parse 'v2df_config.json': ");
                out.append(e.as_str());
            },
            CliError::InvalidFrameRange(start, end, count) => {
                out.append("Frame range [");
                push_u64(&mut out, *start as u64);
                out.append(", ");
                push_u64(&mut out, *end as u64);
                out.append("] is out of range of frame count: ");
                push_u64(&mut out, *count as u64);
            },
            CliError::AccessCurrentDirectory => {
                out.append("Could not access current directory");
            },
            CliError::InvalidTestFrame(frame, count) => {
                out.append("Test frame ");
                push_u64(&mut out, *frame as u64);
                out.append(" is out of range of frame count: ");
                push_u64(&mut out, *count as u64);
            },
            CliError::EmptyFrameCollection => {
                out.append("No frames to process");
            },
        }
        out.append("\n");
        proof {
            assert(out@ =~= self.message_spec());
        }
        out
    }
}

/// Errors arising inside the processing pipeline.
#[derive(Debug)]
pub enum ImplError {
    AccessProjectConfig,
    ImageCreation,
    ImageSaving,
    JsonPrettifier(String),
    FileCompression(String),
    FileWrite(String),
    FetchVideoStream,
    CreateDirectory(String),
    FFmpeg(String),
    /// A distance-field transform was asked for a zero-area frame.
    EmptyDistanceField,
}

impl ImplError {
    /// The full message line reported for this error.
    pub open spec fn message_spec(&self) -> Seq<char> {
        "v2df: "@ + match self {
            ImplError::AccessProjectConfig =>
                "Somehow failed to acess the project config from config"@,
            ImplError::ImageCreation => "Somehow failed to create image"@,
            ImplError::ImageSaving => "Somehow failed to save image"@,
            ImplError::JsonPrettifier(e) => "Somehow failed to prettify the output JSON: "@ + e@,
            ImplError::FileCompression(e) => "Somnehow failed during zlib compression: "@ + e@,
            ImplError::FileWrite(e) => "Somehow failed to write file during output: "@ + e@,
            ImplError::FetchVideoStream => "Somehow failed to fetch video stream"@,
            ImplError::CreateDirectory(e) =>
                "Somehow failed to create directory during output: "@ + e@,
            ImplError::FFmpeg(e) => "Somehow failed during video processing: "@ + e@,
            ImplError::EmptyDistanceField => "Somehow asked for a distance field of size 0"@,
        } + "\n"@
    }

    pub fn message(&self) -> (r: String)
        ensures
            r@ == self.message_spec(),
    {
        let mut out: String = String::from_str("v2df: ");
        match self {
            ImplError::AccessProjectConfig => {
                out.append("Somehow failed to acess the project config from config");
            },
            ImplError::ImageCreation => {
                out.append("Somehow failed to create image");
            },
            ImplError::ImageSaving => {
                out.append("Somehow failed to save image");
            },
            ImplError::JsonPrettifier(e) => {
                out.append("Somehow failed to prettify the output JSON: ");
                out.append(e.as_str());
            },
            ImplError::FileCompression(e) => {
                out.append("Somnehow failed during zlib compression: ");
                out.append(e.as_str());
            },
            ImplError::FileWrite(e) => {
                out.append("Somehow failed to write file during output: ");
                out.append(e.as_str());
            },
            ImplError::FetchVideoStream => {
                out.append("Somehow failed to fetch video stream");
            },
            ImplError::CreateDirectory(e) => {
                out.append("Somehow failed to create directory during output: ");
                out.append(e.as_str());
            },
            ImplError::FFmpeg(e) => {
                out.append("Somehow failed during video processing: ");
                out.append(e.as_str());
            },
            ImplError::EmptyDistanceField => {
                out.append("Somehow asked for a distance field of size 0");
            },
        }
        out.append("\n");
        proof {
            assert(out@ =~= self.message_spec());
        }
        out
    }
}

/// Either kind of failure, as surfaced by the batch orchestrator.
#[derive(Debug)]
pub enum V2dfError {
    Cli(CliError),
    Impl(ImplError),
}

impl V2dfError {
    pub open spec fn message_spec(&self) -> Seq<char> {
        match self {
            V2dfError::Cli(e) => e.message_spec(),
            V2dfError::Impl(e) => e.message_spec(),
        }
    }

    pub fn message(&self) -> (r: String)
        ensures
            r@ == self.message_spec(),
    {
        match self {
            V2dfError::Cli(e) => e.message(),
            V2dfError::Impl(e) => e.message(),
        }
    }
}

} // verus!
