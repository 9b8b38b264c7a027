//! Reliability layer for an unreliable, unordered datagram transport:
//! per-peer sequencing, acknowledgment tracking over a sliding 32-packet
//! window, dropped-packet detection, header framing, the connection registry
//! and the decisions of the tick side and of the socket worker, with every
//! function proved against its contract. Nothing here touches a socket: bytes
//! and events come in as values and go out as values.
//!
//! Beside it stands a small container of entities and their components.

pub mod addr_map;
pub mod address;
pub mod bundle;
pub mod connection;
pub mod dispatch;
pub mod ecs;
pub mod exchange;
pub mod filter;
pub mod message;
pub mod net_entity;
pub mod net_identity;
pub mod packet;
pub mod socket_state;

pub use address::PeerAddr;
pub use bundle::NetworkBundle;
pub use connection::{assemble_packet, ConnectionQuality, ConnectionState, NetConnection};
pub use dispatch::{Batch, InternalSocketEvent};
pub use ecs::{EntityBuilder, World};
pub use exchange::Delivery;
pub use filter::{NetFilter, PassThrough};
pub use message::{MessageCodec, Player};
pub use net_entity::NetEntity;
pub use net_identity::NetIdentity;
pub use socket_state::{ReceiveError, SocketState};
