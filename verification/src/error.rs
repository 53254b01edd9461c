use vstd::prelude::*;

verus! {

/// Everything that can go wrong inside the resolver core.
#[derive(Clone, Copy, Debug, PartialEq, Eq, Structural)]
pub enum DnsError {
    /// A read or write reached past the end of the buffer.
    BufferOverflow,
    /// A name followed more than ten compression pointers.
    NameLoop,
    /// A label of more than 63 bytes was to be written.
    LabelTooLong,
    /// The header carries a result code above 5.
    UnknownResultCode,
    /// A zone line does not have the shape `NAME CLASS TYPE RDATA`.
    BrokenBindFile,
    /// A record or question was finished without a name.
    MissingName,
    /// The text names no query type that can be served.
    UnknownQueryType,
    /// The text names no query class that can be served.
    UnknownQueryClass,
}

impl DnsError {
    /// The message that goes with the error.
    pub fn message(&self) -> (s: &'static str)
        ensures
            s@ == Self::message_text(*self),
    {
        match self {
            DnsError::BufferOverflow => "buffer overflow",
            DnsError::NameLoop => "possibly loop in the question",
            DnsError::LabelTooLong => "length of label is greater than 63 bytes",
            DnsError::UnknownResultCode => "unsupported result code",
            DnsError::BrokenBindFile => "broken bind file",
            DnsError::MissingName => "record name can't be empty",
            DnsError::UnknownQueryType => "unknown query type",
            DnsError::UnknownQueryClass => "unknown query class",
        }
    }

    /// The text of the message that goes with the error.
    pub open spec fn message_text(e: DnsError) -> Seq<char> {
        match e {
            DnsError::BufferOverflow => "buffer overflow"@,
            DnsError::NameLoop => "possibly loop in the question"@,
            DnsError::LabelTooLong => "length of label is greater than 63 bytes"@,
            DnsError::UnknownResultCode => "unsupported result code"@,
            DnsError::BrokenBindFile => "broken bind file"@,
            DnsError::MissingName => "record name can't be empty"@,
            DnsError::UnknownQueryType => "unknown query type"@,
            DnsError::UnknownQueryClass => "unknown query class"@,
        }
    }
}

} // verus!
