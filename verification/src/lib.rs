//! A message bus between processes of one host: label predicates, wire
//! framing, and the routing and rendezvous decisions of a bus, with their
//! behaviour stated in contracts.

pub mod bus_controller;
pub mod endpoint;
pub mod errors;
pub mod frame;
pub mod io_hub;
pub mod label;
pub mod mach_message;
pub mod memory_registry;
pub mod message;
pub mod options;
pub mod pipe_message;
pub mod region;
pub mod selector;
pub mod time;
pub mod util;
pub mod version;

pub use errors::{Error, JoinError, RecvError, SendError};
pub use label::{Label, LabelOp};
pub use memory_registry::MemoryRegistry;
pub use message::{BytesMessage, Message, MessageBox};
pub use options::Options;
pub use selector::{Selector, SelectorMode};
pub use version::{version, version_pre, Version};
