//! Sequencing and acknowledgment bookkeeping, and the datagram header.

pub mod ack_record;
pub mod datagram;
pub mod external;
pub mod wire;

pub use datagram::{CompletePacket, FramingError, Packet};
pub use ack_record::AckRecord;
pub use external::ExternalAcks;
