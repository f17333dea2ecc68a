use vstd::prelude::*;

verus! {

/// Why saving or loading the device cache failed.
#[derive(Clone, Copy, Debug, PartialEq, Eq, Structural)]
pub enum CacheError {
    /// The caller asked to persist zero records.
    EmptyInput,
    /// The underlying file could not be opened, read or written.
    IoError,
    /// The cache file exists but holds zero bytes.
    EmptyFile,
    /// The cache file lacks the structural marker `IP` of any valid record.
    NoDevicesFound,
    /// A line's value slot failed to parse as a URL, or a line does not
    /// carry both value slots.
    MalformedRecord,
    /// The structural marker was present but no record resulted.
    NoParsedDevices,
}

} // verus!
