use vstd::prelude::*;

verus! {

/// A field of the transport stream that the demultiplexer checks.
#[derive(Clone, Copy, Debug, PartialEq, Eq, Structural)]
pub enum Field {
    Sync,
    TransportError,
    Scrambling,
    AdaptationLength,
    PointerField,
    TableId,
    SectionSyntax,
    PrivateBit,
    Reserved,
    SectionLength,
    ProgramInfoLength,
    EsInfoLength,
    PesStartCode,
    PesHeaderLength,
}

/// Why the demultiplexer, or a receiver of its output, gave up on a stream.
#[derive(Clone, Copy, Debug, PartialEq, Eq, Structural)]
pub enum AdtsExtractorError {
    /// A field with a fixed value held another one.
    InvalidData { field: Field, expected: u32, actual: u32 },
    /// A length field asks for fewer bytes than the structure needs.
    TooShort { field: Field, minimum: u32, actual: u32 },
    /// A length field reaches past the end of what holds it.
    TooLong { field: Field, maximum: u32, actual: u32 },
    /// The receiver of the elementary stream refused a piece of it.
    Rejected,
}

} // verus!
