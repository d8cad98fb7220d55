//! Client side of an at-least-once work queue kept in the consumer groups
//! of a stream store.
//!
//! Workers read entries that no worker of their group has been handed yet,
//! take over entries that another worker let lie for too long, and
//! acknowledge what they have done, which deletes it. The library decides
//! and decodes; it never talks to the store. Every operation is given as
//! the request to send first and, for each answer of the store, a function
//! that gives the next request or the operation's result.
//!
//! - [`client`] and [`server`]: the settings of one consumer, the handles of
//!   its streams, and what its session is opened with.
//! - [`stream`]: the operations of a stream handle, step by step.
//! - [`store`]: requests, answers, and the store's failures.
//! - [`claim`]: the reply of the claim procedure, decoded and encoded.
//! - [`msgpack`], [`radix`], [`decimal`]: the numbers inside that reply,
//!   and the identifiers made of them.

mod chance;
pub mod claim;
pub mod client;
pub mod decimal;
pub mod msgpack;
pub mod radix;
pub mod server;
pub mod store;
pub mod stream;

pub use claim::{decode_claims, encode_claims, ClaimedEntry, MalformedResponse};
pub use client::{server_host_port, Client, Stream};
pub use radix::u64_bin;
pub use server::{Connect, Node, RespVersion, Server};
pub use store::{Arg, Entry, ErrorKind, Request, StoreError, StreamEntries, Xid};
pub use stream::{CallReply, ClaimError, ClaimStart, CreateReply, NextStep, ReadReply};
