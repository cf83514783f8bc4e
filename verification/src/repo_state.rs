//! The repository state that a server consults while it negotiates: the
//! recorded history, the current operation heads and the references.

use vstd::prelude::*;

use crate::history::{
    appended, is_ancestor, latest_common, missing_ids, position_of, well_formed, History,
    HistoryError, Node,
};
use crate::object_id::{blake2b_256, ObjectId, OperationId, HASH_LEN};
use crate::refs::{distinct_names, table_of, RefTable, Reference};

verus! {

/// Whether every identifier in `ids` is recorded in `g`.
pub open spec fn all_recorded(g: Seq<Node>, ids: Seq<ObjectId>) -> bool {
    forall|i: int| 0 <= i < ids.len() ==> position_of(g, #[trigger] ids[i]) is Some
}

/// The identifier held under `name`, if any.
pub open spec fn target_of(refs: Map<Seq<char>, ObjectId>, name: Seq<char>) -> Option<ObjectId> {
    if refs.contains_key(name) {
        Some(refs[name])
    } else {
        None
    }
}

/// The bytes of the identifiers `ids`, one after the other.
pub open spec fn joined(ids: Seq<ObjectId>) -> Seq<u8>
    decreases ids.len(),
{
    if ids.len() == 0 {
        Seq::empty()
    } else {
        joined(ids.drop_last()) + ids.last()@
    }
}

/// The content that identifies an operation: the identifiers of the
/// operations it is recorded on, followed by the description of what it
/// does.
pub open spec fn operation_content(heads: Seq<OperationId>, body: Seq<u8>) -> Seq<u8> {
    joined(heads) + body
}

/// A copy of `ids`.
pub fn copy_ids(ids: &Vec<ObjectId>) -> (copy: Vec<ObjectId>)
    ensures
        copy@ == ids@,
{
    let mut copy: Vec<ObjectId> = Vec::new();
    let mut i: usize = 0;
    while i < ids.len()
        invariant
            i <= ids.len(),
            copy@ == ids@.subrange(0, i as int),
        decreases ids.len() - i,
    {
        copy.push(ids[i]);
        assert(ids@.subrange(0, i + 1) =~= ids@.subrange(0, i as int).push(ids@[i as int]));
        i += 1;
    }
    assert(ids@.subrange(0, ids@.len() as int) =~= ids@);
    copy
}

/// The state of a repository as negotiation sees it. Every operation head is
/// a recorded node of the history.
pub struct RepoState {
    history: History,
    heads: Vec<OperationId>,
    refs: RefTable,
}

impl RepoState {
    #[verifier::type_invariant]
    spec fn inv(self) -> bool {
        all_recorded(self.history@, self.heads@)
    }

    /// The recorded history.
    pub closed spec fn graph(self) -> Seq<Node> {
        self.history@
    }

    /// The current operation heads.
    pub closed spec fn head_ids(self) -> Seq<OperationId> {
        self.heads@
    }

    /// The references, by name.
    pub closed spec fn references(self) -> Map<Seq<char>, ObjectId> {
        self.refs@
    }

    /// A repository with no history, no heads and no references.
    pub fn new() -> (state: Self)
        ensures
            state.graph().len() == 0,
            state.head_ids().len() == 0,
            state.references() == Map::<Seq<char>, ObjectId>::empty(),
    {
        RepoState { history: History::new(), heads: Vec::new(), refs: RefTable::new() }
    }

    /// Record a node in the history.
    pub fn record(&mut self, id: ObjectId, parents: &Vec<ObjectId>) -> (r: Result<
        (),
        HistoryError,
    >)
        ensures
            final(self).head_ids() == old(self).head_ids(),
            final(self).references() == old(self).references(),
            match r {
                Ok(()) => {
                    &&& position_of(old(self).graph(), id) is None
                    &&& all_recorded(old(self).graph(), parents@)
                    &&& appended(old(self).graph(), final(self).graph(), id, parents@)
                },
                Err(HistoryError::Duplicate) => {
                    &&& position_of(old(self).graph(), id) is Some
                    &&& final(self).graph() == old(self).graph()
                },
                Err(HistoryError::UnknownParent) => {
                    &&& position_of(old(self).graph(), id) is None
                    &&& !all_recorded(old(self).graph(), parents@)
                    &&& final(self).graph() == old(self).graph()
                },
            },
    {
        proof {
            use_type_invariant(&*self);
        }
        let mut heads: Vec<OperationId> = Vec::new();
        core::mem::swap(&mut self.heads, &mut heads);
        let mut history = History::new();
        core::mem::swap(&mut self.history, &mut history);
        let ghost before = history@;
        let r = history.append(id, parents);
        proof {
            if r is Ok {
                assert forall|i: int| 0 <= i < heads@.len() implies position_of(
                    history@,
                    #[trigger] heads@[i],
                ) is Some by {
                    lemma_still_recorded(before, history@, id, parents@, heads@[i]);
                }
            }
        }
        core::mem::swap(&mut self.history, &mut history);
        core::mem::swap(&mut self.heads, &mut heads);
        match r {
            Ok(_) => Ok(()),
            Err(e) => Err(e),
        }
    }

    /// Make `heads` the operation heads. Heads that are not recorded are
    /// refused and the state is left as it was.
    pub fn set_operation_heads(&mut self, heads: &Vec<OperationId>) -> (done: bool)
        ensures
            done == all_recorded(old(self).graph(), heads@),
            final(self).graph() == old(self).graph(),
            final(self).references() == old(self).references(),
            final(self).head_ids() == if done {
                heads@
            } else {
                old(self).head_ids()
            },
    {
        let mut i: usize = 0;
        while i < heads.len()
            invariant
                i <= heads.len(),
                *self == *old(self),
                forall|k: int|
                    0 <= k < i ==> position_of(self.history@, #[trigger] heads@[k]) is Some,
            decreases heads.len() - i,
        {
            if !self.history.contains(&heads[i]) {
                return false;
            }
            i += 1;
        }
        self.heads = copy_ids(heads);
        true
    }

    /// Point the reference `name` at `target`, creating it if need be.
    pub fn set_reference(&mut self, name: &str, target: ObjectId)
        ensures
            final(self).graph() == old(self).graph(),
            final(self).head_ids() == old(self).head_ids(),
            final(self).references() == old(self).references().insert(name@, target),
    {
        proof {
            use_type_invariant(&*self);
        }
        let mut refs = RefTable::new();
        core::mem::swap(&mut self.refs, &mut refs);
        refs.set(name, target);
        core::mem::swap(&mut self.refs, &mut refs);
    }

    /// Delete the reference `name`, if it exists.
    pub fn remove_reference(&mut self, name: &str)
        ensures
            final(self).graph() == old(self).graph(),
            final(self).head_ids() == old(self).head_ids(),
            final(self).references() == old(self).references().remove(name@),
    {
        proof {
            use_type_invariant(&*self);
        }
        let mut refs = RefTable::new();
        core::mem::swap(&mut self.refs, &mut refs);
        refs.remove(name);
        core::mem::swap(&mut self.refs, &mut refs);
    }

    /// The current operation heads. The history is always well formed, and
    /// every head is recorded in it.
    pub fn operation_heads(&self) -> (heads: Vec<OperationId>)
        ensures
            heads@ == self.head_ids(),
            well_formed(self.graph()),
            all_recorded(self.graph(), self.head_ids()),
    {
        proof {
            use_type_invariant(self);
        }
        let _ = self.history.len();
        copy_ids(&self.heads)
    }

    /// The identifier that the reference `name` points at, if it exists.
    pub fn resolve_reference(&self, name: &str) -> (r: Option<ObjectId>)
        ensures
            r == target_of(self.references(), name@),
    {
        self.refs.resolve(name)
    }

    /// All references with the identifiers they point at, each name once.
    pub fn bookmarks(&self) -> (list: Vec<Reference>)
        ensures
            distinct_names(list@),
            table_of(list@) == self.references(),
    {
        self.refs.list()
    }

    /// Whether a node identified by `id` is recorded.
    pub fn is_recorded(&self, id: &ObjectId) -> (found: bool)
        ensures
            found == position_of(self.graph(), *id) is Some,
    {
        self.history.contains(id)
    }

    /// Whether `ancestor` is `descendant` itself or one of its ancestors.
    pub fn is_ancestor(&self, ancestor: &ObjectId, descendant: &ObjectId) -> (r: bool)
        ensures
            r == is_ancestor(self.graph(), *ancestor, *descendant),
    {
        self.history.is_ancestor(ancestor, descendant)
    }

    /// The most recent recorded node that both head sets descend from, if
    /// there is any.
    pub fn common_ancestor(&self, heads_a: &Vec<OperationId>, heads_b: &Vec<OperationId>) -> (r:
        Option<OperationId>)
        ensures
            match latest_common(self.graph(), heads_a@, heads_b@) {
                Some(t) => r == Some(self.graph()[t].id),
                None => r is None,
            },
    {
        self.history.common_ancestor(heads_a, heads_b)
    }

    /// The identifiers within `depth` generations of `wants` that a peer
    /// holding `haves` does not have, oldest first.
    pub fn missing(&self, wants: &Vec<ObjectId>, haves: &Vec<ObjectId>, depth: Option<u32>) -> (r:
        Vec<ObjectId>)
        ensures
            r@ == missing_ids(self.graph(), wants@, haves@, depth, self.graph().len()),
    {
        self.history.missing(wants, haves, depth)
    }

    /// Whether every identifier in `ids` is recorded.
    pub fn knows_all(&self, ids: &Vec<ObjectId>) -> (r: bool)
        ensures
            r == all_recorded(self.graph(), ids@),
    {
        let mut i: usize = 0;
        while i < ids.len()
            invariant
                i <= ids.len(),
                forall|k: int|
                    0 <= k < i ==> position_of(self.history@, #[trigger] ids@[k]) is Some,
            decreases ids.len() - i,
        {
            if !self.history.contains(&ids[i]) {
                return false;
            }
            i += 1;
        }
        true
    }

    /// The identifier of the operation that does what `body` describes on
    /// top of the current heads: the digest of the heads followed by `body`.
    pub fn next_operation(&self, body: &[u8]) -> (id: OperationId)
        ensures
            id@ == blake2b_256(operation_content(self.head_ids(), body@)),
    {
        let mut content: Vec<u8> = Vec::new();
        let mut i: usize = 0;
        while i < self.heads.len()
            invariant
                i <= self.heads.len(),
                content@ == joined(self.heads@.subrange(0, i as int)),
            decreases self.heads.len() - i,
        {
            let ghost before = content@;
            let bytes = self.heads[i].as_bytes();
            let mut k: usize = 0;
            while k < HASH_LEN
                invariant
                    k <= HASH_LEN,
                    bytes@.len() == HASH_LEN,
                    content@ == before + bytes@.subrange(0, k as int),
                decreases HASH_LEN - k,
            {
                content.push(bytes[k]);
                assert(bytes@.subrange(0, k + 1) =~= bytes@.subrange(0, k as int).push(
                    bytes@[k as int],
                ));
                k += 1;
            }
            proof {
                assert(bytes@.subrange(0, HASH_LEN as int) =~= bytes@);
                let upto = self.heads@.subrange(0, i + 1);
                assert(upto.drop_last() =~= self.heads@.subrange(0, i as int));
                assert(upto.last() == self.heads@[i as int]);
            }
            i += 1;
        }
        assert(self.heads@.subrange(0, self.heads@.len() as int) =~= self.heads@);
        let ghost prefix = content@;
        let mut j: usize = 0;
        while j < body.len()
            invariant
                j <= body.len(),
                content@ == prefix + body@.subrange(0, j as int),
            decreases body.len() - j,
        {
            content.push(body[j]);
            assert(body@.subrange(0, j + 1) =~= body@.subrange(0, j as int).push(body@[j as int]));
            j += 1;
        }
        assert(body@.subrange(0, body@.len() as int) =~= body@);
        ObjectId::hash(content.as_slice())
    }

    /// Record the operation `operation` on top of the current heads and make
    /// it the only head. An operation that is already recorded is refused
    /// and the state is left as it was.
    pub fn advance(&mut self, operation: OperationId) -> (done: bool)
        ensures
            final(self).references() == old(self).references(),
            done == position_of(old(self).graph(), operation) is None,
            done ==> appended(
                old(self).graph(),
                final(self).graph(),
                operation,
                old(self).head_ids(),
            ) && final(self).head_ids() == seq![operation],
            !done ==> final(self).graph() == old(self).graph() && final(self).head_ids() == old(self).head_ids(),
    {
        proof {
            use_type_invariant(&*self);
        }
        let mut heads: Vec<OperationId> = Vec::new();
        core::mem::swap(&mut self.heads, &mut heads);
        let mut history = History::new();
        core::mem::swap(&mut self.history, &mut history);
        let ghost before = history@;
        let r = history.append(operation, &heads);
        core::mem::swap(&mut self.history, &mut history);
        match r {
            Ok(at) => {
                let only = vec![operation];
                proof {
                    assert(only@ =~= seq![operation]);
                    lemma_appended_recorded(before, self.history@, operation, heads@);
                }
                self.heads = only;
                true
            },
            Err(_) => {
                core::mem::swap(&mut self.heads, &mut heads);
                false
            },
        }
    }
}

/// What was recorded stays recorded, at the same position, when a node is
/// appended.
pub proof fn lemma_still_recorded(
    before: Seq<Node>,
    after: Seq<Node>,
    id: ObjectId,
    parents: Seq<ObjectId>,
    other: ObjectId,
)
    requires
        appended(before, after, id, parents),
        position_of(before, other) is Some,
    ensures
        position_of(after, other) is Some,
{
    let i = position_of(before, other)->0;
    assert(after[i] == before[i]);
    assert(after[i].id == other);
}

/// An appended node is recorded.
pub proof fn lemma_appended_recorded(
    before: Seq<Node>,
    after: Seq<Node>,
    id: ObjectId,
    parents: Seq<ObjectId>,
)
    requires
        appended(before, after, id, parents),
    ensures
        position_of(after, id) is Some,
{
    assert(after[before.len() as int].id == id);
}

} // verus!
