//! The message model: header, questions and records, and the packet they make.

pub mod enums;
pub mod header;
pub mod packet;
pub mod packet_builder;
pub mod question;
pub mod record;
pub mod round_trip;

pub use enums::{MessageType, OpCode, QueryClass, QueryType, ResultCode};
pub use packet::{DnsPacket, DnsPacketBase, DnsPacketMeta};
pub use packet_builder::{DnsPacketBuilder, RawRecordType};
pub use question::Question;

use vstd::prelude::*;

verus! {

/// The size of a datagram buffer.
pub const PACKET_BUFFER_LEN: usize = 512;

/// A buffer of 512 zero bytes, the size of a DNS datagram.
pub fn new_packet_buffer() -> (buf: Vec<u8>)
    ensures
        buf@ == Seq::new(PACKET_BUFFER_LEN as nat, |i: int| 0u8),
{
    let buf = vec![0u8; PACKET_BUFFER_LEN];
    assert(buf@ =~= Seq::new(PACKET_BUFFER_LEN as nat, |i: int| 0u8));
    buf
}

} // verus!
