mod broadcast;
mod counter;
mod echo;
mod gset;
mod kv;
mod linkv;
mod log;
mod node;
pub mod raft;
mod unique;
mod value;

pub use broadcast::{BroadcastNode, BroadcastPayload};
pub use counter::{CounterNode, CounterPayload};
pub use echo::{EchoNode, EchoPayload};
pub use gset::{SetNode, SetPayload};
pub use kv::{Either, KvNode, KvPayload, Op, RawOp};
pub use linkv::{Command, LinkvNode, LinkvPayload, RaftCommand};
pub use log::{Log, LogNode, LogPayload};
pub use node::{Body, Init, Message, Outbound, Outbox, Stamper, init_reply};
pub use unique::{UniqueNode, UniquePayload};
pub use value::Value;
