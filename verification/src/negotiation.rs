//! The decisions of a session: which capabilities two peers share, how a
//! handshake is answered, what a fetch sends and how a push is judged and
//! applied.

use vstd::prelude::*;

use crate::history::{latest_common, missing_ids, is_ancestor, position_of, appended, Node};
use crate::messages::{
    overall_status, statuses_of, Capability, FetchRequest, FetchResponse, HelloRequest,
    HelloResponse, PushNegotiate, PushRequest, PushResult, PushStatus, RefResult, RefStatus,
    RefUpdate,
};
use crate::object_id::{parsed_id, ObjectId, OperationId};
use crate::repo_state::{all_recorded, target_of, RepoState};
use crate::PROTOCOL_VERSION;

verus! {

/// Why a session cannot go on.
#[derive(Debug, PartialEq, Eq)]
pub enum ProtocolError {
    /// The peer speaks another protocol version.
    IncompatibleVersion { ours: u32, theirs: u32 },
    /// A message arrived that the state of the session does not allow.
    UnexpectedMessage,
    /// The operation that was to record a push is already recorded.
    OperationExists,
    /// A pack did not hold the number of items that was announced for it.
    PackMismatch { announced: u64, sent: u64 },
}

/// `capability` alone if both peers advertise it, nothing otherwise.
pub open spec fn shared(
    client: Seq<Capability>,
    server: Seq<Capability>,
    capability: Capability,
) -> Seq<Capability> {
    if client.contains(capability) && server.contains(capability) {
        seq![capability]
    } else {
        Seq::empty()
    }
}

/// The capabilities that both peers advertise, each once, in the order in
/// which `Capability` declares them.
pub open spec fn negotiated(client: Seq<Capability>, server: Seq<Capability>) -> Seq<Capability> {
    shared(client, server, Capability::Operations) + shared(client, server, Capability::ThinPack)
        + shared(client, server, Capability::Resumable)
}

/// Negotiation gives the intersection: a capability is negotiated exactly
/// when both peers advertise it, and none is negotiated twice.
pub proof fn lemma_negotiated_is_intersection(client: Seq<Capability>, server: Seq<Capability>)
    ensures
        forall|c: Capability| #[trigger]
            negotiated(client, server).contains(c) <==> client.contains(c) && server.contains(c),
        negotiated(client, server).no_duplicates(),
{
    let ops = shared(client, server, Capability::Operations);
    let thin = shared(client, server, Capability::ThinPack);
    let res = shared(client, server, Capability::Resumable);
    let all = negotiated(client, server);
    assert forall|c: Capability| #[trigger]
        all.contains(c) <==> client.contains(c) && server.contains(c) by {
        if all.contains(c) {
            let i = choose|i: int| 0 <= i < all.len() && all[i] == c;
            assert(all[i] == c);
        }
        if client.contains(c) && server.contains(c) {
            match c {
                Capability::Operations => {
                    assert(all[0] == c);
                },
                Capability::ThinPack => {
                    assert(all[ops.len() as int] == c);
                },
                Capability::Resumable => {
                    assert(all[(ops.len() + thin.len()) as int] == c);
                },
            }
        }
    }
}

/// Negotiation does not depend on who advertises which set, nor on the order
/// or repetition of the advertised capabilities.
pub proof fn lemma_negotiated_by_sets(
    client: Seq<Capability>,
    server: Seq<Capability>,
    other_client: Seq<Capability>,
    other_server: Seq<Capability>,
)
    requires
        forall|c: Capability| client.contains(c) == other_client.contains(c),
        forall|c: Capability| server.contains(c) == other_server.contains(c),
    ensures
        negotiated(client, server) == negotiated(other_client, other_server),
        negotiated(client, server) == negotiated(server, client),
{
}

/// Whether `capability` is among `list`.
pub fn has_capability(list: &Vec<Capability>, capability: Capability) -> (found: bool)
    ensures
        found == list@.contains(capability),
{
    let mut i: usize = 0;
    while i < list.len()
        invariant
            i <= list.len(),
            forall|k: int| 0 <= k < i ==> list@[k] != capability,
        decreases list.len() - i,
    {
        if list[i] == capability {
            return true;
        }
        i += 1;
    }
    false
}

/// The capabilities that both peers advertise.
pub fn negotiate_capabilities(client: &Vec<Capability>, server: &Vec<Capability>) -> (r: Vec<
    Capability,
>)
    ensures
        r@ == negotiated(client@, server@),
{
    let mut out: Vec<Capability> = Vec::new();
    if has_capability(client, Capability::Operations) && has_capability(
        server,
        Capability::Operations,
    ) {
        out.push(Capability::Operations);
    }
    if has_capability(client, Capability::ThinPack) && has_capability(
        server,
        Capability::ThinPack,
    ) {
        out.push(Capability::ThinPack);
    }
    if has_capability(client, Capability::Resumable) && has_capability(
        server,
        Capability::Resumable,
    ) {
        out.push(Capability::Resumable);
    }
    assert(out@ =~= negotiated(client@, server@));
    out
}

/// A copy of `list`.
pub fn copy_capabilities(list: &Vec<Capability>) -> (copy: Vec<Capability>)
    ensures
        copy@ == list@,
{
    let mut copy: Vec<Capability> = Vec::new();
    let mut i: usize = 0;
    while i < list.len()
        invariant
            i <= list.len(),
            copy@ == list@.subrange(0, i as int),
        decreases list.len() - i,
    {
        copy.push(list[i]);
        assert(list@.subrange(0, i + 1) =~= list@.subrange(0, i as int).push(list@[i as int]));
        i += 1;
    }
    assert(list@.subrange(0, list@.len() as int) =~= list@);
    copy
}

/// Whether `r` is the answer that a server in state `repo`, supporting
/// `capabilities`, owes to the handshake `request`.
///
/// A client that speaks another protocol version is refused. Otherwise the
/// answer carries this side's version, the full set of capabilities that the
/// server supports, its operation heads, and the most recent operation that
/// both sides descend from, which is absent where they share none.
pub open spec fn hello_outcome(
    repo: RepoState,
    capabilities: Seq<Capability>,
    request: HelloRequest,
    r: Result<HelloResponse, ProtocolError>,
) -> bool {
    if request.protocol_version != PROTOCOL_VERSION {
        r == Err::<HelloResponse, ProtocolError>(
            ProtocolError::IncompatibleVersion {
                ours: PROTOCOL_VERSION,
                theirs: request.protocol_version,
            },
        )
    } else {
        &&& r is Ok
        &&& r->Ok_0.protocol_version == PROTOCOL_VERSION
        &&& r->Ok_0.capabilities@ == capabilities
        &&& r->Ok_0.server_op_heads@ == repo.head_ids()
        &&& match latest_common(repo.graph(), request.client_op_heads@, repo.head_ids()) {
            Some(t) => r->Ok_0.common_ancestor == Some(repo.graph()[t].id),
            None => r->Ok_0.common_ancestor is None,
        }
    }
}

/// Answer a handshake.
pub fn run_handshake(
    repo: &RepoState,
    capabilities: &Vec<Capability>,
    request: &HelloRequest,
) -> (r: Result<HelloResponse, ProtocolError>)
    ensures
        hello_outcome(*repo, capabilities@, *request, r),
{
    if request.protocol_version != PROTOCOL_VERSION {
        return Err(
            ProtocolError::IncompatibleVersion {
                ours: PROTOCOL_VERSION,
                theirs: request.protocol_version,
            },
        );
    }
    let heads = repo.operation_heads();
    let common_ancestor = repo.common_ancestor(&request.client_op_heads, &heads);
    Ok(
        HelloResponse {
            protocol_version: PROTOCOL_VERSION,
            capabilities: copy_capabilities(capabilities),
            server_op_heads: heads,
            common_ancestor,
        },
    )
}

/// Read the answer to a handshake on the client's side: the capabilities the
/// session may use, or the refusal of a server that speaks another version.
pub fn accept_handshake(capabilities: &Vec<Capability>, response: &HelloResponse) -> (r: Result<
    Vec<Capability>,
    ProtocolError,
>)
    ensures
        response.protocol_version != PROTOCOL_VERSION ==> r == Err::<
            Vec<Capability>,
            ProtocolError,
        >(
            ProtocolError::IncompatibleVersion {
                ours: PROTOCOL_VERSION,
                theirs: response.protocol_version,
            },
        ),
        response.protocol_version == PROTOCOL_VERSION ==> r is Ok && r->Ok_0@ == negotiated(
            capabilities@,
            response.capabilities@,
        ),
{
    if response.protocol_version != PROTOCOL_VERSION {
        return Err(
            ProtocolError::IncompatibleVersion {
                ours: PROTOCOL_VERSION,
                theirs: response.protocol_version,
            },
        );
    }
    Ok(negotiate_capabilities(capabilities, &response.capabilities))
}

/// The targets of the references among the first `upto` of `names` that
/// exist, in the order of the names.
pub open spec fn wanted_targets(
    refs: Map<Seq<char>, ObjectId>,
    names: Seq<String>,
    upto: nat,
) -> Seq<ObjectId>
    decreases upto,
{
    if upto == 0 {
        Seq::empty()
    } else {
        let earlier = wanted_targets(refs, names, (upto - 1) as nat);
        match target_of(refs, names[upto - 1]@) {
            Some(id) => earlier.push(id),
            None => earlier,
        }
    }
}

/// Whether `response` is the answer that a server in state `repo` owes to
/// the fetch `request`.
///
/// It announces the recorded nodes within the requested depth of the wanted
/// references that are not in the ancestor closure of what the client has,
/// oldest first. A wanted reference that does not exist contributes nothing.
/// A pack follows exactly when there is something to send, and its declared
/// count is the number of identifiers announced.
pub open spec fn fetch_outcome(repo: RepoState, request: FetchRequest, response: FetchResponse) -> bool {
    &&& response.ops_to_send@ == missing_ids(
        repo.graph(),
        wanted_targets(repo.references(), request.want_refs@, request.want_refs@.len()),
        request.have_ops@,
        request.depth,
        repo.graph().len(),
    )
    &&& response.pack_follows == (response.ops_to_send@.len() > 0)
    &&& response.commit_count == response.ops_to_send@.len()
}

/// Answer a fetch: announce the identifiers that the client is missing.
pub fn run_fetch(repo: &RepoState, request: &FetchRequest) -> (response: FetchResponse)
    ensures
        fetch_outcome(*repo, *request, response),
{
    let mut wants: Vec<ObjectId> = Vec::new();
    let mut i: usize = 0;
    while i < request.want_refs.len()
        invariant
            i <= request.want_refs.len(),
            wants@ == wanted_targets(repo.references(), request.want_refs@, i as nat),
        decreases request.want_refs.len() - i,
    {
        match repo.resolve_reference(request.want_refs[i].as_str()) {
            Some(id) => {
                wants.push(id);
            },
            None => {},
        }
        i += 1;
    }
    let ops = repo.missing(&wants, &request.have_ops, request.depth);
    let count = ops.len();
    FetchResponse { pack_follows: count > 0, ops_to_send: ops, commit_count: count as u64 }
}

/// What the examination of one reference update finds.
#[derive(Debug, Clone, Copy, PartialEq, Eq, Structural)]
pub enum Finding {
    /// The expected old value is the current value: the update can be applied.
    Acceptable,
    /// The old or the new identifier is not well-formed hex text.
    MalformedId,
    /// The reference does not exist, and the update is not a creation.
    UnknownReference,
    /// The expected old value is an ancestor of the current value: the
    /// client is behind.
    Behind,
    /// The expected old value and the current value have diverged.
    Diverged,
}

impl Finding {
    /// The status reported for the reference.
    pub open spec fn status(self) -> RefStatus {
        match self {
            Finding::Acceptable => RefStatus::Accepted,
            Finding::MalformedId => RefStatus::Rejected,
            Finding::UnknownReference => RefStatus::Rejected,
            Finding::Behind => RefStatus::Stale,
            Finding::Diverged => RefStatus::Conflict,
        }
    }

    /// The explanation reported with the status, if any.
    pub open spec fn message(self) -> Option<Seq<char>> {
        match self {
            Finding::Acceptable => None,
            Finding::MalformedId => Some("malformed identifier"@),
            Finding::UnknownReference => Some("reference does not exist"@),
            Finding::Behind => Some("fast-forward required"@),
            Finding::Diverged => Some("reference diverged"@),
        }
    }

    /// The result reported for the reference `name`.
    pub fn report(self, name: &String) -> (result: RefResult)
        ensures
            result.ref_name@ == name@,
            result.status == self.status(),
            text_of(result.message) == self.message(),
    {
        let (status, message) = match self {
            Finding::Acceptable => (RefStatus::Accepted, None),
            Finding::MalformedId => (RefStatus::Rejected, Some("malformed identifier".to_owned())),
            Finding::UnknownReference => (
                RefStatus::Rejected,
                Some("reference does not exist".to_owned()),
            ),
            Finding::Behind => (RefStatus::Stale, Some("fast-forward required".to_owned())),
            Finding::Diverged => (RefStatus::Conflict, Some("reference diverged".to_owned())),
        };
        RefResult { ref_name: name.clone(), status, message }
    }
}

/// The characters of an optional text.
pub open spec fn text_of(text: Option<String>) -> Option<Seq<char>> {
    match text {
        Some(t) => Some(t@),
        None => None,
    }
}

/// The identifier that an optional hex text names: absent where there is no
/// text, and nothing at all where the text is malformed.
pub open spec fn optional_id(text: Option<String>) -> Option<Option<ObjectId>> {
    match text {
        None => Some(None),
        Some(t) => match parsed_id(t@) {
            Some(id) => Some(Some(id)),
            None => None,
        },
    }
}

/// What the examination of `update` finds against the history `g` and the
/// references `refs`.
///
/// An update is acceptable when the old value it expects is the current one,
/// absent meaning that the reference does not exist. Otherwise an unknown
/// reference is refused; an existing one is behind where the expected value
/// is an ancestor of the current one, and has diverged where it is not.
pub open spec fn finding(g: Seq<Node>, refs: Map<Seq<char>, ObjectId>, update: RefUpdate) -> Finding {
    match (optional_id(update.old_id), optional_id(update.new_id)) {
        (Some(expected), Some(_)) => {
            let current = target_of(refs, update.ref_name@);
            if expected == current {
                Finding::Acceptable
            } else if current is None {
                Finding::UnknownReference
            } else if expected is Some && is_ancestor(g, expected->0, current->0) {
                Finding::Behind
            } else {
                Finding::Diverged
            }
        },
        _ => Finding::MalformedId,
    }
}

/// Whether `results` reports, in order, what the examination of each of
/// `updates` finds.
pub open spec fn judged(
    g: Seq<Node>,
    refs: Map<Seq<char>, ObjectId>,
    updates: Seq<RefUpdate>,
    results: Seq<RefResult>,
) -> bool {
    &&& results.len() == updates.len()
    &&& forall|i: int|
        0 <= i < updates.len() ==> {
            let found = finding(g, refs, updates[i]);
            &&& (#[trigger] results[i]).ref_name@ == updates[i].ref_name@
            &&& results[i].status == found.status()
            &&& text_of(results[i].message) == found.message()
        }
}

/// Whether every one of `updates` is acceptable.
pub open spec fn all_acceptable(
    g: Seq<Node>,
    refs: Map<Seq<char>, ObjectId>,
    updates: Seq<RefUpdate>,
) -> bool {
    forall|i: int| 0 <= i < updates.len() ==> finding(g, refs, #[trigger] updates[i]) == Finding::Acceptable
}

/// The references after the first `upto` of `updates` have been applied in
/// order: an update with a new value sets the reference, one without
/// deletes it.
pub open spec fn applied(
    refs: Map<Seq<char>, ObjectId>,
    updates: Seq<RefUpdate>,
    upto: nat,
) -> Map<Seq<char>, ObjectId>
    decreases upto,
{
    if upto == 0 {
        refs
    } else {
        let earlier = applied(refs, updates, (upto - 1) as nat);
        let update = updates[upto - 1];
        match optional_id(update.new_id) {
            Some(Some(id)) => earlier.insert(update.ref_name@, id),
            _ => earlier.remove(update.ref_name@),
        }
    }
}

/// Read an optional identifier from its hex text.
pub fn read_optional_id(text: &Option<String>) -> (r: Option<Option<ObjectId>>)
    ensures
        r == optional_id(*text),
{
    match text {
        None => Some(None),
        Some(t) => match ObjectId::from_hex(t.as_str()) {
            Ok(id) => Some(Some(id)),
            Err(_) => None,
        },
    }
}

/// Examine one reference update against the current state of `repo`.
pub fn examine(repo: &RepoState, update: &RefUpdate) -> (found: Finding)
    ensures
        found == finding(repo.graph(), repo.references(), *update),
{
    let expected = match read_optional_id(&update.old_id) {
        Some(expected) => expected,
        None => {
            return Finding::MalformedId;
        },
    };
    if read_optional_id(&update.new_id).is_none() {
        return Finding::MalformedId;
    }
    let current = repo.resolve_reference(update.ref_name.as_str());
    match current {
        None => match expected {
            None => Finding::Acceptable,
            Some(_) => Finding::UnknownReference,
        },
        Some(now) => match expected {
            None => Finding::Diverged,
            Some(then) => {
                if then.same(&now) {
                    Finding::Acceptable
                } else if repo.is_ancestor(&then, &now) {
                    Finding::Behind
                } else {
                    Finding::Diverged
                }
            },
        },
    }
}

/// Whether the repository is the same in `before` and `after`.
pub open spec fn unchanged(before: RepoState, after: RepoState) -> bool {
    &&& after.references() == before.references()
    &&& after.graph() == before.graph()
    &&& after.head_ids() == before.head_ids()
}

/// Whether `r` and the state `after` are what the push `request`, to be
/// recorded as `operation`, makes of the state `before`.
///
/// Every update is examined on its own against the state before the push,
/// in the order given, and the result reports each finding. The overall
/// status is the worst among them. The updates are applied only if all of
/// them are acceptable, and then all of them are, in order; `operation` is
/// recorded on top of the current heads and becomes the only head. A push
/// without updates changes nothing and succeeds.
///
/// The push fails, and changes nothing, where it would be applied but
/// `operation` is already recorded.
pub open spec fn push_outcome(
    before: RepoState,
    after: RepoState,
    request: PushRequest,
    operation: OperationId,
    r: Result<PushResult, ProtocolError>,
) -> bool {
    let applies = request.updates@.len() > 0 && all_acceptable(
        before.graph(),
        before.references(),
        request.updates@,
    );
    match r {
        Ok(result) => {
            &&& judged(before.graph(), before.references(), request.updates@, result.ref_results@)
            &&& result.is_consistent()
            &&& if applies {
                &&& result.status == PushStatus::Accepted
                &&& result.new_op_head == Some(operation)
                &&& position_of(before.graph(), operation) is None
                &&& after.references() == applied(
                    before.references(),
                    request.updates@,
                    request.updates@.len(),
                )
                &&& appended(before.graph(), after.graph(), operation, before.head_ids())
                &&& after.head_ids() == seq![operation]
            } else {
                &&& result.new_op_head is None
                &&& unchanged(before, after)
            }
        },
        Err(e) => {
            &&& e == ProtocolError::OperationExists
            &&& applies
            &&& position_of(before.graph(), operation) is Some
            &&& unchanged(before, after)
        },
    }
}

/// Judge and apply a push.
pub fn run_push(repo: &mut RepoState, request: &PushRequest, operation: OperationId) -> (r: Result<
    PushResult,
    ProtocolError,
>)
    ensures
        push_outcome(*old(repo), *final(repo), *request, operation, r),
{
    let ghost g = repo.graph();
    let ghost refs = repo.references();
    let ghost updates = request.updates@;
    let mut results: Vec<RefResult> = Vec::new();
    let mut i: usize = 0;
    while i < request.updates.len()
        invariant
            i <= request.updates.len(),
            *repo == *old(repo),
            g == repo.graph(),
            refs == repo.references(),
            updates == request.updates@,
            judged(g, refs, updates.subrange(0, i as int), results@),
        decreases request.updates.len() - i,
    {
        let found = examine(repo, &request.updates[i]);
        let result = found.report(&request.updates[i].ref_name);
        results.push(result);
        i += 1;
    }
    assert(updates.subrange(0, updates.len() as int) =~= updates);
    let status = PushResult::overall(&results);
    proof {
        lemma_accepted_means_acceptable(g, refs, updates, results@);
    }
    let accepted = match status {
        PushStatus::Accepted => true,
        _ => false,
    };
    if !accepted || request.updates.len() == 0 {
        return Ok(PushResult { status, new_op_head: None, ref_results: results });
    }
    if repo.is_recorded(&operation) {
        return Err(ProtocolError::OperationExists);
    }
    let mut k: usize = 0;
    while k < request.updates.len()
        invariant
            k <= request.updates.len(),
            updates == request.updates@,
            all_acceptable(g, refs, updates),
            repo.graph() == g,
            repo.head_ids() == old(repo).head_ids(),
            repo.references() == applied(refs, updates, k as nat),
        decreases request.updates.len() - k,
    {
        let update = &request.updates[k];
        assert(finding(g, refs, updates[k as int]) == Finding::Acceptable);
        match read_optional_id(&update.new_id) {
            Some(Some(id)) => {
                repo.set_reference(update.ref_name.as_str(), id);
            },
            _ => {
                repo.remove_reference(update.ref_name.as_str());
            },
        }
        k += 1;
    }
    let done = repo.advance(operation);
    assert(done);
    Ok(PushResult { status, new_op_head: Some(operation), ref_results: results })
}

/// The overall status of a judged push is `Accepted` exactly when every
/// update is acceptable.
pub proof fn lemma_accepted_means_acceptable(
    g: Seq<Node>,
    refs: Map<Seq<char>, ObjectId>,
    updates: Seq<RefUpdate>,
    results: Seq<RefResult>,
)
    requires
        judged(g, refs, updates, results),
    ensures
        overall_status(statuses_of(results)) == PushStatus::Accepted <==> all_acceptable(
            g,
            refs,
            updates,
        ),
{
    let statuses = statuses_of(results);
    assert forall|i: int| 0 <= i < updates.len() implies statuses[i] == finding(
        g,
        refs,
        updates[i],
    ).status() by {
        assert(results[i].status == finding(g, refs, updates[i]).status());
    }
    if all_acceptable(g, refs, updates) {
        assert forall|i: int| 0 <= i < statuses.len() implies statuses[i] == RefStatus::Accepted by {
            assert(finding(g, refs, updates[i]) == Finding::Acceptable);
        }
    } else {
        let i = choose|i: int|
            0 <= i < updates.len() && finding(g, refs, #[trigger] updates[i]) != Finding::Acceptable;
        assert(statuses[i] != RefStatus::Accepted);
    }
}

/// Whether `r` is what a server in state `repo` asks of a client before it
/// judges the push `request`.
///
/// The server needs objects when the client declares operations that the
/// server has not recorded. It then reports the most recent operation that
/// both sides descend from. Where every declared operation is recorded no
/// message is sent.
pub open spec fn negotiation_outcome(
    repo: RepoState,
    request: PushRequest,
    r: Option<PushNegotiate>,
) -> bool {
    if all_recorded(repo.graph(), request.have_ops@) {
        r is None
    } else {
        &&& r is Some
        &&& r->0.need_objects
        &&& match latest_common(repo.graph(), request.have_ops@, repo.head_ids()) {
            Some(t) => r->0.common_op == Some(repo.graph()[t].id),
            None => r->0.common_op is None,
        }
    }
}

/// What the server asks of a client before it judges a push, if anything.
pub fn push_negotiation(repo: &RepoState, request: &PushRequest) -> (r: Option<PushNegotiate>)
    ensures
        negotiation_outcome(*repo, *request, r),
{
    if repo.knows_all(&request.have_ops) {
        return None;
    }
    let heads = repo.operation_heads();
    let common_op = repo.common_ancestor(&request.have_ops, &heads);
    Some(PushNegotiate { common_op, need_objects: true })
}

/// A handshake between peers of the same version of which one has no
/// operation heads succeeds and reports no common ancestor. Where the server
/// is the one without heads, the answer carries none.
pub proof fn lemma_handshake_without_heads(
    repo: RepoState,
    capabilities: Seq<Capability>,
    request: HelloRequest,
    r: Result<HelloResponse, ProtocolError>,
)
    requires
        hello_outcome(repo, capabilities, request, r),
        request.protocol_version == PROTOCOL_VERSION,
        request.client_op_heads@.len() == 0 || repo.head_ids().len() == 0,
    ensures
        r is Ok,
        r->Ok_0.common_ancestor is None,
        repo.head_ids().len() == 0 ==> r->Ok_0.server_op_heads@.len() == 0,
{
    crate::history::lemma_no_common_without_heads(
        repo.graph(),
        request.client_op_heads@,
        repo.head_ids(),
    );
}

/// An update that expects the value the reference has, absent where the
/// reference does not exist, is acceptable.
pub proof fn lemma_expected_value_is_acceptable(
    g: Seq<Node>,
    refs: Map<Seq<char>, ObjectId>,
    update: RefUpdate,
)
    requires
        optional_id(update.old_id) == Some(target_of(refs, update.ref_name@)),
        optional_id(update.new_id) is Some,
    ensures
        finding(g, refs, update) == Finding::Acceptable,
        finding(g, refs, update).status() == RefStatus::Accepted,
{
}

/// An update that expects another value than the reference has is behind
/// where the expected value is an ancestor of the current one, and has
/// diverged where it is not.
pub proof fn lemma_other_value_is_stale_or_conflict(
    g: Seq<Node>,
    refs: Map<Seq<char>, ObjectId>,
    update: RefUpdate,
    expected: ObjectId,
    current: ObjectId,
)
    requires
        optional_id(update.old_id) == Some(Some(expected)),
        optional_id(update.new_id) is Some,
        target_of(refs, update.ref_name@) == Some(current),
        expected != current,
    ensures
        is_ancestor(g, expected, current) ==> finding(g, refs, update).status() == RefStatus::Stale,
        !is_ancestor(g, expected, current) ==> finding(g, refs, update).status()
            == RefStatus::Conflict,
{
}

/// A push whose updates are all acceptable, recorded as an operation that is
/// not recorded yet, succeeds: every reference and the push as a whole are
/// accepted, the updates are applied, and the operation is the new head.
pub proof fn lemma_acceptable_push_is_applied(
    before: RepoState,
    after: RepoState,
    request: PushRequest,
    operation: OperationId,
    r: Result<PushResult, ProtocolError>,
)
    requires
        push_outcome(before, after, request, operation, r),
        request.updates@.len() > 0,
        all_acceptable(before.graph(), before.references(), request.updates@),
        position_of(before.graph(), operation) is None,
    ensures
        r is Ok,
        r->Ok_0.status == PushStatus::Accepted,
        r->Ok_0.new_op_head == Some(operation),
        r->Ok_0.ref_results@.len() == request.updates@.len(),
        forall|i: int|
            0 <= i < request.updates@.len() ==> (#[trigger] r->Ok_0.ref_results@[i]).status
                == RefStatus::Accepted,
        after.references() == applied(
            before.references(),
            request.updates@,
            request.updates@.len(),
        ),
        after.head_ids() == seq![operation],
{
    let results = r->Ok_0.ref_results@;
    assert forall|i: int| 0 <= i < request.updates@.len() implies (#[trigger] results[i]).status
        == RefStatus::Accepted by {
        assert(finding(before.graph(), before.references(), request.updates@[i])
            == Finding::Acceptable);
    }
}

/// A clean fast-forward: a push of one update from the value that the
/// reference has to a new one, recorded as an operation that is not recorded
/// yet, is accepted, and afterwards the reference holds the new value while
/// every other reference is as it was.
pub proof fn lemma_clean_fast_forward(
    before: RepoState,
    after: RepoState,
    request: PushRequest,
    operation: OperationId,
    r: Result<PushResult, ProtocolError>,
    current: ObjectId,
    new: ObjectId,
)
    requires
        push_outcome(before, after, request, operation, r),
        request.updates@.len() == 1,
        optional_id(request.updates@[0].old_id) == Some(Some(current)),
        optional_id(request.updates@[0].new_id) == Some(Some(new)),
        target_of(before.references(), request.updates@[0].ref_name@) == Some(current),
        position_of(before.graph(), operation) is None,
    ensures
        r is Ok,
        r->Ok_0.status == PushStatus::Accepted,
        r->Ok_0.ref_results@.len() == 1,
        r->Ok_0.ref_results@[0].status == RefStatus::Accepted,
        after.references() == before.references().insert(request.updates@[0].ref_name@, new),
        target_of(after.references(), request.updates@[0].ref_name@) == Some(new),
{
    let g = before.graph();
    let refs = before.references();
    let updates = request.updates@;
    lemma_expected_value_is_acceptable(g, refs, updates[0]);
    lemma_acceptable_push_is_applied(before, after, request, operation, r);
    reveal_with_fuel(applied, 2);
    assert(applied(refs, updates, 0) == refs);
}

/// A push with an update that is not acceptable is answered but not
/// applied: the repository is left as it was, no operation is recorded, and
/// the push as a whole is not accepted. The result reports what the
/// examination of that update finds.
pub proof fn lemma_refused_push_changes_nothing(
    before: RepoState,
    after: RepoState,
    request: PushRequest,
    operation: OperationId,
    r: Result<PushResult, ProtocolError>,
    i: int,
)
    requires
        push_outcome(before, after, request, operation, r),
        0 <= i < request.updates@.len(),
        finding(before.graph(), before.references(), request.updates@[i]) != Finding::Acceptable,
    ensures
        r is Ok,
        r->Ok_0.status != PushStatus::Accepted,
        r->Ok_0.new_op_head is None,
        r->Ok_0.ref_results@[i].status == finding(
            before.graph(),
            before.references(),
            request.updates@[i],
        ).status(),
        unchanged(before, after),
{
    let g = before.graph();
    let refs = before.references();
    assert(!all_acceptable(g, refs, request.updates@));
    lemma_accepted_means_acceptable(g, refs, request.updates@, r->Ok_0.ref_results@);
}

/// A stale push: an update that expects an ancestor of the value that the
/// reference has is reported as stale, and the push changes nothing.
pub proof fn lemma_stale_push(
    before: RepoState,
    after: RepoState,
    request: PushRequest,
    operation: OperationId,
    r: Result<PushResult, ProtocolError>,
    i: int,
    expected: ObjectId,
    current: ObjectId,
)
    requires
        push_outcome(before, after, request, operation, r),
        0 <= i < request.updates@.len(),
        optional_id(request.updates@[i].old_id) == Some(Some(expected)),
        optional_id(request.updates@[i].new_id) is Some,
        target_of(before.references(), request.updates@[i].ref_name@) == Some(current),
        expected != current,
        is_ancestor(before.graph(), expected, current),
    ensures
        r is Ok,
        r->Ok_0.ref_results@[i].status == RefStatus::Stale,
        r->Ok_0.status != PushStatus::Accepted,
        unchanged(before, after),
        target_of(after.references(), request.updates@[i].ref_name@) == Some(current),
{
    lemma_other_value_is_stale_or_conflict(
        before.graph(),
        before.references(),
        request.updates@[i],
        expected,
        current,
    );
    lemma_refused_push_changes_nothing(before, after, request, operation, r, i);
}

/// A diverged push: an update that expects a value which is neither the one
/// that the reference has nor an ancestor of it is reported as a conflict,
/// the push as a whole is a conflict, and nothing changes.
pub proof fn lemma_diverged_push(
    before: RepoState,
    after: RepoState,
    request: PushRequest,
    operation: OperationId,
    r: Result<PushResult, ProtocolError>,
    i: int,
    expected: ObjectId,
    current: ObjectId,
)
    requires
        push_outcome(before, after, request, operation, r),
        0 <= i < request.updates@.len(),
        optional_id(request.updates@[i].old_id) == Some(Some(expected)),
        optional_id(request.updates@[i].new_id) is Some,
        target_of(before.references(), request.updates@[i].ref_name@) == Some(current),
        expected != current,
        !is_ancestor(before.graph(), expected, current),
    ensures
        r is Ok,
        r->Ok_0.ref_results@[i].status == RefStatus::Conflict,
        r->Ok_0.status == PushStatus::Conflict,
        unchanged(before, after),
        target_of(after.references(), request.updates@[i].ref_name@) == Some(current),
{
    lemma_other_value_is_stale_or_conflict(
        before.graph(),
        before.references(),
        request.updates@[i],
        expected,
        current,
    );
    lemma_refused_push_changes_nothing(before, after, request, operation, r, i);
    let statuses = statuses_of(r->Ok_0.ref_results@);
    assert(statuses[i] == RefStatus::Conflict);
}

} // verus!
