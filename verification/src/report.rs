//! What an extraction reports besides its files: the conditions it recovered
//! from, and the errors that end it.

use vstd::prelude::*;

verus! {

/// A condition that was recovered from. The run goes on after each of them.
#[derive(Debug, PartialEq, Eq)]
pub enum Warning {
    /// An entry with this name was already met in the same directory.
    DuplicateFile { path: String },
    /// The entry's name is not safe as it stands.
    InvalidFileName { path: String },
    /// The entry is written under another name than its own.
    Renamed { path: String, output: String },
    /// The entry's name is neither UTF-8 nor Windows-31J; it was decoded with replacement characters.
    UndecodableName { name: String },
    /// The entry's name is not UTF-16; it was decoded with replacement characters.
    UndecodableWideName { name: String },
    /// The entry's payload ended before the declared size was reached.
    EndedPrematurely { name: String, expected: u64, got: u64 },
    /// The entry's payload holds more than the declared size; the rest was left out.
    Truncated { name: String, size: u64 },
}

/// A warning as a plain value.
pub enum WarningModel {
    DuplicateFile { path: Seq<char> },
    InvalidFileName { path: Seq<char> },
    Renamed { path: Seq<char>, output: Seq<char> },
    UndecodableName { name: Seq<char> },
    UndecodableWideName { name: Seq<char> },
    EndedPrematurely { name: Seq<char>, expected: u64, got: u64 },
    Truncated { name: Seq<char>, size: u64 },
}

impl View for Warning {
    type V = WarningModel;

    open spec fn view(&self) -> WarningModel {
        match self {
            Warning::DuplicateFile { path } => WarningModel::DuplicateFile { path: path@ },
            Warning::InvalidFileName { path } => WarningModel::InvalidFileName { path: path@ },
            Warning::Renamed { path, output } => WarningModel::Renamed {
                path: path@,
                output: output@,
            },
            Warning::UndecodableName { name } => WarningModel::UndecodableName { name: name@ },
            Warning::UndecodableWideName { name } => WarningModel::UndecodableWideName {
                name: name@,
            },
            Warning::EndedPrematurely { name, expected, got } => WarningModel::EndedPrematurely {
                name: name@,
                expected: *expected,
                got: *got,
            },
            Warning::Truncated { name, size } => WarningModel::Truncated { name: name@, size: *size },
        }
    }
}

/// The warnings of a log as plain values, in order.
pub open spec fn warning_models(log: Seq<Warning>) -> Seq<WarningModel> {
    log.map_values(|w: Warning| w@)
}

/// Why an extraction was given up.
#[derive(Debug, Clone, Copy, PartialEq, Eq)]
pub enum ExtractError {
    /// The container ends before a field that its layout asks for.
    UnexpectedEof,
    /// An entry marked as compressed is shorter than the marker and size field that precede its stream.
    EntryTooShort,
    /// The decompressor rejected a compressed stream.
    CorruptStream,
    /// The header block is larger than memory can address.
    HeaderTooLarge,
}

/// Adds `warning` at the end of `log`.
pub fn log_warning(log: &mut Vec<Warning>, warning: Warning)
    ensures
        warning_models(final(log)@) == warning_models(old(log)@).push(warning@),
{
    log.push(warning);
}

} // verus!
