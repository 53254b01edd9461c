//! The enumerated fields of a DNS message and their numbers on the wire.

use crate::error::DnsError;
use crate::smart_buffer::text::same_text;
use vstd::prelude::*;
use vstd::std_specs::convert::{FromSpecImpl, TryFromSpecImpl};

verus! {

/// The result code of a response: the low four bits of the flags word.
#[derive(Copy, Clone, Debug, PartialEq, Eq, Structural)]
pub enum ResultCode {
    NoError,
    FormatError,
    ServerFailure,
    NameError,
    NotImplemented,
    Refused,
}

impl ResultCode {
    /// The number of the code on the wire.
    pub open spec fn spec_code(self) -> u8 {
        match self {
            ResultCode::NoError => 0,
            ResultCode::FormatError => 1,
            ResultCode::ServerFailure => 2,
            ResultCode::NameError => 3,
            ResultCode::NotImplemented => 4,
            ResultCode::Refused => 5,
        }
    }

    /// The code that a number stands for; numbers above 5 stand for none.
    pub open spec fn of_code(value: u8) -> Result<ResultCode, DnsError> {
        match value {
            0 => Ok(ResultCode::NoError),
            1 => Ok(ResultCode::FormatError),
            2 => Ok(ResultCode::ServerFailure),
            3 => Ok(ResultCode::NameError),
            4 => Ok(ResultCode::NotImplemented),
            5 => Ok(ResultCode::Refused),
            _ => Err(DnsError::UnknownResultCode),
        }
    }

    /// The number of the code on the wire.
    #[verifier::when_used_as_spec(spec_code)]
    pub fn code(self) -> (value: u8)
        ensures
            value == self.spec_code(),
    {
        match self {
            ResultCode::NoError => 0,
            ResultCode::FormatError => 1,
            ResultCode::ServerFailure => 2,
            ResultCode::NameError => 3,
            ResultCode::NotImplemented => 4,
            ResultCode::Refused => 5,
        }
    }
}

impl TryFrom<u8> for ResultCode {
    type Error = DnsError;

    fn try_from(value: u8) -> (r: Result<Self, DnsError>) {
        match value {
            0 => Ok(Self::NoError),
            1 => Ok(Self::FormatError),
            2 => Ok(Self::ServerFailure),
            3 => Ok(Self::NameError),
            4 => Ok(Self::NotImplemented),
            5 => Ok(Self::Refused),
            _ => Err(DnsError::UnknownResultCode),
        }
    }
}

impl TryFromSpecImpl<u8> for ResultCode {
    open spec fn obeys_try_from_spec() -> bool {
        true
    }

    open spec fn try_from_spec(value: u8) -> Result<Self, DnsError> {
        ResultCode::of_code(value)
    }
}

/// Bit 15 of the flags word.
#[derive(Copy, Clone, Debug, PartialEq, Eq, Structural)]
pub enum MessageType {
    Query,
    Response,
}

impl MessageType {
    /// The bit that stands for the type.
    pub open spec fn spec_code(self) -> u8 {
        match self {
            MessageType::Query => 0,
            MessageType::Response => 1,
        }
    }

    /// The bit that stands for the type: 0 for a query, 1 for a response.
    #[verifier::when_used_as_spec(spec_code)]
    pub fn code(self) -> (value: u8)
        ensures
            value == self.spec_code(),
    {
        match self {
            MessageType::Query => 0,
            MessageType::Response => 1,
        }
    }
}

/// Bits 14 to 11 of the flags word. A number without a name is kept as it is.
#[derive(Copy, Clone, Debug, PartialEq, Eq, Structural)]
pub enum OpCode {
    Query,
    IQuery,
    Status,
    Reserved(u8),
}

impl OpCode {
    /// The opcode that a number stands for.
    pub open spec fn of_code(value: u8) -> OpCode {
        match value {
            0 => OpCode::Query,
            1 => OpCode::IQuery,
            2 => OpCode::Status,
            value => OpCode::Reserved(value),
        }
    }

    /// The number that stands for the opcode.
    pub open spec fn spec_code(self) -> u8 {
        match self {
            OpCode::Query => 0,
            OpCode::IQuery => 1,
            OpCode::Status => 2,
            OpCode::Reserved(value) => value,
        }
    }
}

impl From<u8> for OpCode {
    fn from(value: u8) -> (r: Self) {
        match value {
            0 => Self::Query,
            1 => Self::IQuery,
            2 => Self::Status,
            value => Self::Reserved(value),
        }
    }
}

impl FromSpecImpl<u8> for OpCode {
    open spec fn obeys_from_spec() -> bool {
        true
    }

    open spec fn from_spec(value: u8) -> Self {
        OpCode::of_code(value)
    }
}

impl From<OpCode> for u8 {
    fn from(value: OpCode) -> (r: Self) {
        match value {
            OpCode::Query => 0,
            OpCode::IQuery => 1,
            OpCode::Status => 2,
            OpCode::Reserved(value) => value,
        }
    }
}

impl FromSpecImpl<OpCode> for u8 {
    open spec fn obeys_from_spec() -> bool {
        true
    }

    open spec fn from_spec(value: OpCode) -> Self {
        value.spec_code()
    }
}

/// The type of a question or record. Only `A` has a name here; any other
/// number is kept as it is.
#[derive(Copy, Clone, Debug, PartialEq, Eq, Structural)]
pub enum QueryType {
    A,
    Unknown(u16),
}

impl QueryType {
    /// The type that a number stands for.
    pub open spec fn of_code(value: u16) -> QueryType {
        match value {
            1 => QueryType::A,
            value => QueryType::Unknown(value),
        }
    }

    /// The number that stands for the type.
    pub open spec fn spec_code(self) -> u16 {
        match self {
            QueryType::A => 1,
            QueryType::Unknown(value) => value,
        }
    }

    /// The type is the variant that its number stands for.
    pub open spec fn canonical(self) -> bool {
        self == QueryType::of_code(self.spec_code())
    }

    /// The type that a zone file names by `text`.
    pub open spec fn of_text(text: Seq<char>) -> Result<QueryType, DnsError> {
        if text == "A"@ {
            Ok(QueryType::A)
        } else {
            Err(DnsError::UnknownQueryType)
        }
    }
}

impl From<u16> for QueryType {
    fn from(value: u16) -> (r: Self) {
        match value {
            1 => Self::A,
            value => Self::Unknown(value),
        }
    }
}

impl FromSpecImpl<u16> for QueryType {
    open spec fn obeys_from_spec() -> bool {
        true
    }

    open spec fn from_spec(value: u16) -> Self {
        QueryType::of_code(value)
    }
}

impl TryFrom<&str> for QueryType {
    type Error = DnsError;

    fn try_from(value: &str) -> (r: Result<Self, DnsError>) {
        if same_text(value, "A") {
            Ok(Self::A)
        } else {
            Err(DnsError::UnknownQueryType)
        }
    }
}

impl TryFromSpecImpl<&str> for QueryType {
    open spec fn obeys_try_from_spec() -> bool {
        true
    }

    open spec fn try_from_spec(value: &str) -> Result<Self, DnsError> {
        QueryType::of_text(value@)
    }
}

impl From<QueryType> for u16 {
    fn from(value: QueryType) -> (r: Self) {
        match value {
            QueryType::A => 1,
            QueryType::Unknown(value) => value,
        }
    }
}

impl FromSpecImpl<QueryType> for u16 {
    open spec fn obeys_from_spec() -> bool {
        true
    }

    open spec fn from_spec(value: QueryType) -> Self {
        value.spec_code()
    }
}

/// The class of a question or record. Only `IN` has a name here; any other
/// number is kept as it is.
#[derive(Copy, Clone, Debug, PartialEq, Eq, Structural)]
pub enum QueryClass {
    IN,
    Unknown(u16),
}

impl QueryClass {
    /// The class that a number stands for.
    pub open spec fn of_code(value: u16) -> QueryClass {
        match value {
            1 => QueryClass::IN,
            value => QueryClass::Unknown(value),
        }
    }

    /// The number that stands for the class.
    pub open spec fn spec_code(self) -> u16 {
        match self {
            QueryClass::IN => 1,
            QueryClass::Unknown(value) => value,
        }
    }

    /// The class is the variant that its number stands for.
    pub open spec fn canonical(self) -> bool {
        self == QueryClass::of_code(self.spec_code())
    }

    /// The class that a zone file names by `text`.
    pub open spec fn of_text(text: Seq<char>) -> Result<QueryClass, DnsError> {
        if text == "IN"@ {
            Ok(QueryClass::IN)
        } else {
            Err(DnsError::UnknownQueryClass)
        }
    }
}

impl TryFrom<&str> for QueryClass {
    type Error = DnsError;

    fn try_from(value: &str) -> (r: Result<Self, DnsError>) {
        if same_text(value, "IN") {
            Ok(Self::IN)
        } else {
            Err(DnsError::UnknownQueryClass)
        }
    }
}

impl TryFromSpecImpl<&str> for QueryClass {
    open spec fn obeys_try_from_spec() -> bool {
        true
    }

    open spec fn try_from_spec(value: &str) -> Result<Self, DnsError> {
        QueryClass::of_text(value@)
    }
}

impl From<QueryClass> for u16 {
    fn from(value: QueryClass) -> (r: Self) {
        match value {
            QueryClass::IN => 1,
            QueryClass::Unknown(value) => value,
        }
    }
}

impl FromSpecImpl<QueryClass> for u16 {
    open spec fn obeys_from_spec() -> bool {
        true
    }

    open spec fn from_spec(value: QueryClass) -> Self {
        value.spec_code()
    }
}

impl From<u16> for QueryClass {
    fn from(value: u16) -> (r: Self) {
        match value {
            1 => Self::IN,
            value => Self::Unknown(value),
        }
    }
}

impl FromSpecImpl<u16> for QueryClass {
    open spec fn obeys_from_spec() -> bool {
        true
    }

    open spec fn from_spec(value: u16) -> Self {
        QueryClass::of_code(value)
    }
}

} // verus!
