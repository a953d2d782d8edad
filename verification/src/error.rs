//! Errors of the shell and their texts.

use vstd::prelude::*;

verus! {

/// An internal fault of the shared store.
#[derive(Clone, Copy, Debug, PartialEq, Eq, Structural)]
pub enum Fault {
    /// The size asked for a new region cannot hold a header and one entry.
    SizeTooSmall,
    /// The region is shorter than its header.
    RegionTooSmall,
    /// The size of a region does not fit its header.
    RegionTooLarge,
    /// The size to which the region would have to grow does not fit its header.
    SharedRegionTooLarge,
    /// A name is longer than an entry can record.
    NameTooLong,
    /// A key is longer than an entry can record.
    KeyTooLong,
    /// A value is longer than an entry can record.
    ValueTooLong,
    /// The header claims more bytes than the region holds, or fewer than the header itself takes.
    CorruptHeader,
    /// An entry reaches past the bytes in use.
    CorruptEntry,
    /// An entry carries a type byte that stands for no entry type.
    UnknownEntryType,
}

impl Fault {
    /// The text that describes this fault.
    pub open spec fn text(self) -> Seq<char> {
        match self {
            Fault::SizeTooSmall => "shared region size too small"@,
            Fault::RegionTooSmall => "region too small"@,
            Fault::RegionTooLarge => "region too large"@,
            Fault::SharedRegionTooLarge => "shared region too large"@,
            Fault::NameTooLong => "name too long"@,
            Fault::KeyTooLong => "key too long"@,
            Fault::ValueTooLong => "value too long"@,
            Fault::CorruptHeader => "corrupt shared header"@,
            Fault::CorruptEntry => "corrupt shared entry"@,
            Fault::UnknownEntryType => "unknown shared entry type"@,
        }
    }

    /// The text that describes this fault.
    pub fn message(&self) -> (r: &'static str)
        ensures
            r@ == self.text(),
    {
        match self {
            Fault::SizeTooSmall => "shared region size too small",
            Fault::RegionTooSmall => "region too small",
            Fault::RegionTooLarge => "region too large",
            Fault::SharedRegionTooLarge => "shared region too large",
            Fault::NameTooLong => "name too long",
            Fault::KeyTooLong => "key too long",
            Fault::ValueTooLong => "value too long",
            Fault::CorruptHeader => "corrupt shared header",
            Fault::CorruptEntry => "corrupt shared entry",
            Fault::UnknownEntryType => "unknown shared entry type",
        }
    }
}

/// Why an operation of the shell failed.
#[derive(Clone, Copy, Debug, PartialEq, Eq, Structural)]
pub enum Error {
    /// Something that should not happen did.
    InternalError(Fault),
    /// Execution was cancelled.
    Interrupted,
    /// The memory behind a shared region would have to grow to `size` bytes, and has not been
    /// granted that many.
    GrowthRefused {
        /// The size, in bytes, that the region needs.
        size: u64,
    },
    /// A readonly variable was to be changed.
    ReadonlyVariable,
    /// A variable whose value is computed on each read cannot be pushed into the shared store.
    DynamicShared,
}

impl Error {
    /// The text that describes this error.
    pub open spec fn text(self) -> Seq<char> {
        match self {
            Error::InternalError(fault) => fault.text(),
            Error::Interrupted => "interrupted"@,
            Error::GrowthRefused { size } => "shared region cannot grow"@,
            Error::ReadonlyVariable => "cannot mutate readonly variable"@,
            Error::DynamicShared => "shared sync for dynamic values is not supported"@,
        }
    }

    /// The text that describes this error.
    pub fn message(&self) -> (r: &'static str)
        ensures
            r@ == self.text(),
    {
        match self {
            Error::InternalError(fault) => fault.message(),
            Error::Interrupted => "interrupted",
            Error::GrowthRefused { .. } => "shared region cannot grow",
            Error::ReadonlyVariable => "cannot mutate readonly variable",
            Error::DynamicShared => "shared sync for dynamic values is not supported",
        }
    }
}

} // verus!
