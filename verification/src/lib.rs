//! A broker between a cycle-accurate hardware simulator and an analysis host.
//!
//! The simulator sends framed requests: it puts messages, each stamped with a
//! probe id and a clock cycle, and it asks for the messages the host has
//! queued for a probe. This crate holds the broker's logic as a
//! single-owner state machine: the wire format, the per-probe queues of both
//! directions, the accessors that drain them, and the classification of a
//! pipeline's state from what its probes reported in one cycle.

pub mod cycle;
pub mod getter;
pub mod inbox;
pub mod join;
pub mod laws;
pub mod message;
pub mod pipe;
pub mod pipeline;
pub mod publisher;
pub mod server;
pub mod shim;
pub mod stall;
pub mod store;
pub mod wire;

pub use getter::{CycleGetter, IDGetter, PipeLineGetter};
pub use message::{
    B2RMessage, GetPutMessage, HostToSim, MsgSizeType, R2BMessage, Request, SimToHost,
    MSG_SIZE_BYTES, SHUT_DOWN_ID,
};
pub use pipeline::{PipeLineState, ProbeType, ProtocolAssertionError};
pub use publisher::{B2RPublisher, Subscriber, Turn};
pub use server::{B2RServer, Reaction, DEFAULT_SOCKET_PATH};
pub use stall::StallWatch;
pub use wire::{get_msg_size, receive_getput, FramingError};
