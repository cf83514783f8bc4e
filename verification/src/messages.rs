//! Protocol message definitions.
//!
//! Every message travels as the payload of exactly one frame. The types here
//! are the plain values of the schema; turning them into bytes and back is
//! left to the caller.

use vstd::prelude::*;

use crate::object_id::OperationId;
use crate::text::str_eq;

verus! {

/// Capabilities that can be negotiated between client and server.
#[derive(Debug, Clone, Copy, PartialEq, Eq, Structural)]
pub enum Capability {
    /// Include operation log in sync
    Operations,
    /// Delta compression for object packs
    ThinPack,
    /// Resumable transfers
    Resumable,
}

/// Initial handshake from client.
#[derive(Debug, Clone)]
pub struct HelloRequest {
    pub protocol_version: u32,
    pub capabilities: Vec<Capability>,
    pub client_op_heads: Vec<OperationId>,
}

/// Server response to handshake.
#[derive(Debug, Clone)]
pub struct HelloResponse {
    pub protocol_version: u32,
    pub capabilities: Vec<Capability>,
    pub server_op_heads: Vec<OperationId>,
    pub common_ancestor: Option<OperationId>,
}

/// Fetch request from client.
#[derive(Debug, Clone)]
pub struct FetchRequest {
    /// Operations the client already has
    pub have_ops: Vec<OperationId>,
    /// Bookmark names to fetch
    pub want_refs: Vec<String>,
    /// Shallow fetch limit (optional)
    pub depth: Option<u32>,
}

/// Fetch response header.
#[derive(Debug, Clone)]
pub struct FetchResponse {
    /// Whether an object pack follows this message
    pub pack_follows: bool,
    /// Operations that will be sent
    pub ops_to_send: Vec<OperationId>,
    /// Number of commits in the pack
    pub commit_count: u64,
}

/// Push request from client.
#[derive(Debug, Clone)]
pub struct PushRequest {
    /// Operations the client has
    pub have_ops: Vec<OperationId>,
    /// Reference updates to apply
    pub updates: Vec<RefUpdate>,
}

/// Reference update in a push.
#[derive(Debug, Clone)]
pub struct RefUpdate {
    /// Name of the reference (bookmark)
    pub ref_name: String,
    /// Expected current value (None for create)
    pub old_id: Option<String>,
    /// New value (None for delete)
    pub new_id: Option<String>,
}

/// Server response to push negotiation.
#[derive(Debug, Clone)]
pub struct PushNegotiate {
    /// Common ancestor operation
    pub common_op: Option<OperationId>,
    /// Whether the server needs objects
    pub need_objects: bool,
}

/// Final push result.
#[derive(Debug, Clone)]
pub struct PushResult {
    /// Overall status
    pub status: PushStatus,
    /// New operation head after push
    pub new_op_head: Option<OperationId>,
    /// Per-reference results
    pub ref_results: Vec<RefResult>,
}

/// Push status.
#[derive(Debug, Clone, Copy, PartialEq, Eq, Structural)]
pub enum PushStatus {
    /// Every update was accepted (`ok` on the wire)
    Accepted,
    Rejected,
    Conflict,
}

/// Result for a single reference update.
#[derive(Debug, Clone)]
pub struct RefResult {
    pub ref_name: String,
    pub status: RefStatus,
    pub message: Option<String>,
}

/// Status for a single reference update.
#[derive(Debug, Clone, Copy, PartialEq, Eq, Structural)]
pub enum RefStatus {
    /// The update was accepted (`ok` on the wire)
    Accepted,
    Rejected,
    /// Fast-forward required
    Stale,
    /// Bookmark conflict
    Conflict,
}

impl Capability {
    /// The name of the capability on the wire.
    pub open spec fn wire_name(self) -> Seq<char> {
        match self {
            Capability::Operations => "operations"@,
            Capability::ThinPack => "thin_pack"@,
            Capability::Resumable => "resumable"@,
        }
    }

    /// The capability that `name` stands for on the wire, if any.
    pub open spec fn parse(name: Seq<char>) -> Option<Capability> {
        if name == "operations"@ {
            Some(Capability::Operations)
        } else if name == "thin_pack"@ {
            Some(Capability::ThinPack)
        } else if name == "resumable"@ {
            Some(Capability::Resumable)
        } else {
            None
        }
    }

    /// The name of the capability on the wire.
    pub fn as_str(&self) -> (name: &'static str)
        ensures
            name@ == self.wire_name(),
    {
        match self {
            Capability::Operations => "operations",
            Capability::ThinPack => "thin_pack",
            Capability::Resumable => "resumable",
        }
    }

    /// Read a capability from its name on the wire.
    pub fn from_name(name: &str) -> (r: Option<Capability>)
        ensures
            r == Self::parse(name@),
    {
        if str_eq(name, "operations") {
            Some(Capability::Operations)
        } else if str_eq(name, "thin_pack") {
            Some(Capability::ThinPack)
        } else if str_eq(name, "resumable") {
            Some(Capability::Resumable)
        } else {
            None
        }
    }

    /// Each capability is read back from its own name.
    pub proof fn lemma_name_round_trip(self)
        ensures
            Self::parse(self.wire_name()) == Some(self),
    {
        reveal_strlit("operations");
        reveal_strlit("thin_pack");
        reveal_strlit("resumable");
        assert("operations"@.len() == 10);
        assert("thin_pack"@.len() == 9);
        assert("resumable"@.len() == 9);
        assert("thin_pack"@[0] == 't');
        assert("resumable"@[0] == 'r');
    }
}

impl PushStatus {
    /// The name of the status on the wire.
    pub open spec fn wire_name(self) -> Seq<char> {
        match self {
            PushStatus::Accepted => "ok"@,
            PushStatus::Rejected => "rejected"@,
            PushStatus::Conflict => "conflict"@,
        }
    }

    /// How severe the status is: a higher number is worse.
    pub open spec fn severity(self) -> nat {
        match self {
            PushStatus::Accepted => 0,
            PushStatus::Rejected => 1,
            PushStatus::Conflict => 2,
        }
    }

    /// The name of the status on the wire.
    pub fn as_str(&self) -> (name: &'static str)
        ensures
            name@ == self.wire_name(),
    {
        match self {
            PushStatus::Accepted => "ok",
            PushStatus::Rejected => "rejected",
            PushStatus::Conflict => "conflict",
        }
    }
}

impl RefStatus {
    /// The name of the status on the wire.
    pub open spec fn wire_name(self) -> Seq<char> {
        match self {
            RefStatus::Accepted => "ok"@,
            RefStatus::Rejected => "rejected"@,
            RefStatus::Stale => "stale"@,
            RefStatus::Conflict => "conflict"@,
        }
    }

    /// What a reference result of this status means for the whole push. A
    /// stale update counts as rejected.
    pub open spec fn outcome(self) -> PushStatus {
        match self {
            RefStatus::Accepted => PushStatus::Accepted,
            RefStatus::Rejected => PushStatus::Rejected,
            RefStatus::Stale => PushStatus::Rejected,
            RefStatus::Conflict => PushStatus::Conflict,
        }
    }

    /// The name of the status on the wire.
    pub fn as_str(&self) -> (name: &'static str)
        ensures
            name@ == self.wire_name(),
    {
        match self {
            RefStatus::Accepted => "ok",
            RefStatus::Rejected => "rejected",
            RefStatus::Stale => "stale",
            RefStatus::Conflict => "conflict",
        }
    }
}

/// The statuses of a list of reference results, in order.
pub open spec fn statuses_of(results: Seq<RefResult>) -> Seq<RefStatus> {
    results.map_values(|r: RefResult| r.status)
}

/// The overall status of a push with the given per-reference statuses: the
/// most severe outcome among them, and accepted where there is none.
pub open spec fn overall_status(statuses: Seq<RefStatus>) -> PushStatus {
    if exists|i: int| 0 <= i < statuses.len() && statuses[i] == RefStatus::Conflict {
        PushStatus::Conflict
    } else if exists|i: int| 0 <= i < statuses.len() && statuses[i] != RefStatus::Accepted {
        PushStatus::Rejected
    } else {
        PushStatus::Accepted
    }
}

/// The overall status is the outcome of one of the results, and no result
/// has a more severe outcome.
pub proof fn lemma_overall_is_worst(statuses: Seq<RefStatus>)
    ensures
        forall|i: int|
            0 <= i < statuses.len() ==> (#[trigger] statuses[i]).outcome().severity()
                <= overall_status(statuses).severity(),
        statuses.len() > 0 ==> exists|i: int|
            0 <= i < statuses.len() && (#[trigger] statuses[i]).outcome() == overall_status(
                statuses,
            ),
        statuses.len() == 0 ==> overall_status(statuses) == PushStatus::Accepted,
{
    if statuses.len() > 0 {
        if exists|i: int| 0 <= i < statuses.len() && statuses[i] == RefStatus::Conflict {
            let i = choose|i: int| 0 <= i < statuses.len() && statuses[i] == RefStatus::Conflict;
            assert(statuses[i].outcome() == overall_status(statuses));
        } else if exists|i: int| 0 <= i < statuses.len() && statuses[i] != RefStatus::Accepted {
            let i = choose|i: int| 0 <= i < statuses.len() && statuses[i] != RefStatus::Accepted;
            assert(statuses[i].outcome() == overall_status(statuses));
        } else {
            assert(statuses[0].outcome() == overall_status(statuses));
        }
    }
}

impl PushResult {
    /// Whether the overall status reflects the per-reference results.
    pub open spec fn is_consistent(self) -> bool {
        self.status == overall_status(statuses_of(self.ref_results@))
    }

    /// The overall status that goes with the per-reference results `results`.
    pub fn overall(results: &Vec<RefResult>) -> (status: PushStatus)
        ensures
            status == overall_status(statuses_of(results@)),
    {
        let ghost statuses = statuses_of(results@);
        let mut conflict = false;
        let mut refused = false;
        let mut i: usize = 0;
        while i < results.len()
            invariant
                i <= results.len(),
                statuses == statuses_of(results@),
                conflict == exists|k: int| 0 <= k < i && statuses[k] == RefStatus::Conflict,
                refused == exists|k: int| 0 <= k < i && statuses[k] != RefStatus::Accepted,
            decreases results.len() - i,
        {
            match results[i].status {
                RefStatus::Accepted => {},
                RefStatus::Conflict => {
                    conflict = true;
                    refused = true;
                },
                _ => {
                    refused = true;
                },
            }
            assert(statuses[i as int] == results@[i as int].status);
            i += 1;
        }
        if conflict {
            PushStatus::Conflict
        } else if refused {
            PushStatus::Rejected
        } else {
            PushStatus::Accepted
        }
    }
}

} // verus!
