//! Connection hub for relaying short textual commands to registered agents.
//!
//! The library holds the hub's state and decisions: the `key=value;...` wire
//! codec, the token store that gates privileged operations, the registry of
//! live agent transports, the ping round-trip tracker, and the relay steps
//! that tie them together; and, on the agent side, the reading of a relayed
//! message. Network sends are performed by the caller, which reports their
//! outcomes back to the hub.

pub mod agent;
pub mod auth;
pub mod codec;
pub mod hub;
pub mod latency;
pub mod registry;
pub mod table;

pub use agent::{choose_action, interpret, AgentAction, AgentStep};
pub use auth::{AuthError, AuthStore, TOKEN_LEN};
pub use codec::{
    command_text, decimal_string, decode, encode, parse_params, pointer_command, split_pair,
    split_text, Decoded, Params,
};
pub use hub::{ack_name_of, Broadcast, Hub, Registered};
pub use latency::LatencyTracker;
pub use registry::ConnectionRegistry;
pub use table::NameTable;
