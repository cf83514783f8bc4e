//! Wire protocol core of a content-addressed version-control forge.
//!
//! A client and a server exchange repository state over a byte stream. This
//! crate holds what that exchange rests on:
//!
//! - [`object_id`]: the content hash that names every addressable entity,
//!   with its hex rendering ([`hexcodec`]);
//! - [`framing`]: length-prefixed frames with a bounded payload;
//! - [`messages`]: the messages of handshake, fetch and push;
//! - [`history`], [`refs`] and [`repo_state`]: the repository state that
//!   negotiation consults, as an append-only graph of identified nodes, a
//!   table of named references and the current operation heads;
//! - [`negotiation`]: the decisions, from shared capabilities to the
//!   judgement of every reference update of a push;
//! - [`session`]: the state machine that puts the exchanges in order;
//! - [`repository`]: what the storage layer reports about a repository, and
//!   the decisions taken on it.
//!
//! Nothing here performs I/O. A transport reads and writes the bytes and
//! turns message bodies into the values of [`messages`] and back.

use vstd::prelude::*;

pub mod framing;
pub mod hexcodec;
pub mod history;
pub mod messages;
pub mod negotiation;
pub mod object_id;
pub mod refs;
pub mod repo_state;
pub mod repository;
pub mod session;
pub mod text;

pub use framing::{read_frame, write_frame, FrameError};
pub use messages::{
    Capability, FetchRequest, FetchResponse, HelloRequest, HelloResponse, PushRequest,
    PushResult, PushStatus, RefUpdate,
};
pub use object_id::{ChangeId, CommitId, FileId, ObjectId, OperationId, TreeId, ViewId};
pub use repository::{BackendType, RepoInfo, Repository, StorageConfig};

verus! {

/// Protocol version spoken by this implementation.
pub const PROTOCOL_VERSION: u32 = 1;

} // verus!
