//! The history that negotiation reasons about: an append-only graph of
//! identified nodes, each naming its parents among the nodes recorded before
//! it.
//!
//! Because a node can only name earlier nodes as parents, the order of
//! recording is a topological order: every ancestor of a node comes before
//! it, and "most recent" means "recorded last".

use vstd::prelude::*;

use crate::object_id::ObjectId;

verus! {

/// One recorded node: its identifier and the positions of its parents.
#[derive(Debug)]
pub struct Node {
    pub id: ObjectId,
    pub parents: Vec<usize>,
}

/// Why a node could not be recorded.
#[derive(Debug, PartialEq, Eq)]
pub enum HistoryError {
    /// A node with this identifier is already recorded.
    Duplicate,
    /// One of the parents named is not recorded.
    UnknownParent,
}

/// Every parent position points at an earlier node, and no identifier is
/// recorded twice.
pub open spec fn well_formed(g: Seq<Node>) -> bool {
    &&& forall|i: int, k: int|
        0 <= i < g.len() && 0 <= k < g[i].parents@.len() ==> (#[trigger] g[i].parents@[k]) < i
    &&& forall|i: int, j: int| 0 <= i < j < g.len() ==> #[trigger] g[i].id != #[trigger] g[j].id
}

/// Whether node `parent` is a parent of node `child`.
pub open spec fn is_parent(g: Seq<Node>, child: int, parent: int) -> bool {
    &&& 0 <= child < g.len()
    &&& exists|k: int| 0 <= k < g[child].parents@.len() && #[trigger] g[child].parents@[k] == parent
}

/// Whether node `target` is one of `starts` or can be reached from one of
/// them by following at most `steps` parent links.
pub open spec fn reaches_within(g: Seq<Node>, starts: Set<int>, target: int, steps: nat) -> bool
    decreases steps,
{
    starts.contains(target) || (steps > 0 && exists|mid: int|
        reaches_within(g, starts, mid, (steps - 1) as nat) && #[trigger] is_parent(g, mid, target))
}

/// Whether node `target` belongs to the ancestor closure of `starts`: it is
/// one of them or can be reached from one of them by following parent links.
pub open spec fn reaches(g: Seq<Node>, starts: Set<int>, target: int) -> bool {
    exists|steps: nat| reaches_within(g, starts, target, steps)
}

/// The positions of the nodes whose identifier is among `ids`. Identifiers
/// that are not recorded stand for no node.
pub open spec fn positions_of(g: Seq<Node>, ids: Seq<ObjectId>) -> Set<int> {
    Set::new(|i: int| 0 <= i < g.len() && ids.contains(g[i].id))
}

/// The position of the node identified by `id`, if it is recorded.
pub open spec fn position_of(g: Seq<Node>, id: ObjectId) -> Option<int> {
    if exists|i: int| 0 <= i < g.len() && g[i].id == id {
        Some(choose|i: int| 0 <= i < g.len() && g[i].id == id)
    } else {
        None
    }
}

/// Whether the node identified by `target` is recorded and belongs to the
/// ancestor closure of the nodes identified by `from`.
pub open spec fn id_reaches(g: Seq<Node>, from: Seq<ObjectId>, target: ObjectId) -> bool {
    position_of(g, target) matches Some(t) && reaches(g, positions_of(g, from), t)
}

/// Whether `ancestor` is `descendant` itself or one of its ancestors. Both
/// must be recorded.
pub open spec fn is_ancestor(g: Seq<Node>, ancestor: ObjectId, descendant: ObjectId) -> bool {
    id_reaches(g, seq![descendant], ancestor)
}

/// Whether node `t` belongs to the ancestor closure of both `a` and `b`.
pub open spec fn is_common(g: Seq<Node>, a: Seq<ObjectId>, b: Seq<ObjectId>, t: int) -> bool {
    reaches(g, positions_of(g, a), t) && reaches(g, positions_of(g, b), t)
}

/// The most recent node that belongs to the ancestor closure of both `a`
/// and `b`, if they share any.
pub open spec fn latest_common(g: Seq<Node>, a: Seq<ObjectId>, b: Seq<ObjectId>) -> Option<int> {
    if exists|t: int| 0 <= t < g.len() && is_common(g, a, b, t) {
        Some(
            choose|t: int|
                0 <= t < g.len() && is_common(g, a, b, t) && forall|u: int|
                    t < u < g.len() ==> !is_common(g, a, b, u),
        )
    } else {
        None
    }
}

/// Whether node `t` lies within `depth` generations of a node in `wants`,
/// counting the wanted nodes themselves as the first generation. Without a
/// depth every ancestor counts.
pub open spec fn within_depth(g: Seq<Node>, wants: Set<int>, depth: Option<u32>, t: int) -> bool {
    match depth {
        None => reaches(g, wants, t),
        Some(d) => d > 0 && reaches_within(g, wants, t, (d - 1) as nat),
    }
}

/// Whether node `t` is wanted and not held: it lies within `depth` of the
/// nodes identified by `wants` and outside the ancestor closure of those
/// identified by `haves`.
pub open spec fn is_missing(
    g: Seq<Node>,
    wants: Seq<ObjectId>,
    haves: Seq<ObjectId>,
    depth: Option<u32>,
    t: int,
) -> bool {
    within_depth(g, positions_of(g, wants), depth, t) && !reaches(g, positions_of(g, haves), t)
}

/// The identifiers of the missing nodes among the first `upto` nodes, oldest
/// first.
pub open spec fn missing_ids(
    g: Seq<Node>,
    wants: Seq<ObjectId>,
    haves: Seq<ObjectId>,
    depth: Option<u32>,
    upto: nat,
) -> Seq<ObjectId>
    decreases upto,
{
    if upto == 0 {
        Seq::empty()
    } else {
        let earlier = missing_ids(g, wants, haves, depth, (upto - 1) as nat);
        if is_missing(g, wants, haves, depth, upto - 1) {
            earlier.push(g[upto - 1].id)
        } else {
            earlier
        }
    }
}

/// What is announced as missing is the set difference of the two closures:
/// among the first `upto` nodes, an identifier is listed exactly when its
/// node is missing, and none is listed twice.
pub proof fn lemma_missing_ids(
    g: Seq<Node>,
    wants: Seq<ObjectId>,
    haves: Seq<ObjectId>,
    depth: Option<u32>,
    upto: nat,
)
    requires
        well_formed(g),
        upto <= g.len(),
    ensures
        forall|id: ObjectId| #[trigger]
            missing_ids(g, wants, haves, depth, upto).contains(id) <==> exists|t: int|
                0 <= t < upto && #[trigger] g[t].id == id && is_missing(g, wants, haves, depth, t),
        missing_ids(g, wants, haves, depth, upto).no_duplicates(),
    decreases upto,
{
    let listed = missing_ids(g, wants, haves, depth, upto);
    if upto > 0 {
        let earlier = missing_ids(g, wants, haves, depth, (upto - 1) as nat);
        let last = upto - 1;
        lemma_missing_ids(g, wants, haves, depth, (upto - 1) as nat);
        assert forall|id: ObjectId| #[trigger]
            listed.contains(id) <==> exists|t: int|
                0 <= t < upto && #[trigger] g[t].id == id && is_missing(g, wants, haves, depth, t) by {
            if listed.contains(id) {
                let i = choose|i: int| 0 <= i < listed.len() && listed[i] == id;
                if i < earlier.len() {
                    assert(earlier[i] == id);
                    assert(earlier.contains(id));
                    let t = choose|t: int|
                        0 <= t < upto - 1 && #[trigger] g[t].id == id && is_missing(
                            g,
                            wants,
                            haves,
                            depth,
                            t,
                        );
                    assert(0 <= t < upto && g[t].id == id);
                } else {
                    assert(g[last].id == id);
                }
            }
            if exists|t: int|
                0 <= t < upto && #[trigger] g[t].id == id && is_missing(g, wants, haves, depth, t) {
                let t = choose|t: int|
                    0 <= t < upto && #[trigger] g[t].id == id && is_missing(
                        g,
                        wants,
                        haves,
                        depth,
                        t,
                    );
                if t < last {
                    assert(0 <= t < upto - 1 && g[t].id == id);
                    assert(earlier.contains(id));
                    let i = choose|i: int| 0 <= i < earlier.len() && earlier[i] == id;
                    assert(listed[i] == id);
                } else {
                    assert(listed[earlier.len() as int] == id);
                }
            }
        }
        assert forall|i: int, j: int| 0 <= i < j < listed.len() implies listed[i] != listed[j] by {
            if j == earlier.len() {
                assert(earlier[i] == listed[i]);
                assert(earlier.contains(listed[i]));
                let t = choose|t: int|
                    0 <= t < upto - 1 && #[trigger] g[t].id == listed[i] && is_missing(
                        g,
                        wants,
                        haves,
                        depth,
                        t,
                    );
                assert(g[t].id != g[last].id);
            } else {
                assert(earlier[i] == listed[i] && earlier[j] == listed[j]);
            }
        }
    }
}

/// Whether `after` is `before` with one more node, identified by `id`, whose
/// parents are the nodes that `parents` identifies in `before`.
pub open spec fn appended(
    before: Seq<Node>,
    after: Seq<Node>,
    id: ObjectId,
    parents: Seq<ObjectId>,
) -> bool {
    let at = before.len() as int;
    &&& after.len() == before.len() + 1
    &&& forall|i: int| 0 <= i < before.len() ==> #[trigger] after[i] == before[i]
    &&& after[at].id == id
    &&& after[at].parents@.len() == parents.len()
    &&& forall|k: int|
        0 <= k < parents.len() ==> position_of(before, parents[k]) == Some(
            #[trigger] after[at].parents@[k] as int,
        )
}

/// A node that is appended descends from each of the parents it names.
pub proof fn lemma_appended_descends(
    before: Seq<Node>,
    after: Seq<Node>,
    id: ObjectId,
    parents: Seq<ObjectId>,
    k: int,
)
    requires
        well_formed(before),
        position_of(before, id) is None,
        appended(before, after, id, parents),
        0 <= k < parents.len(),
    ensures
        is_ancestor(after, parents[k], id),
{
    let at = before.len() as int;
    let p = after[at].parents@[k] as int;
    assert(position_of(before, parents[k]) == Some(p));
    assert(after[p] == before[p]);
    assert(after[p].id == parents[k]);
    let t = position_of(after, parents[k])->0;
    assert(t == p) by {
        if t != p {
            assert(t != at);
            assert(after[t] == before[t]);
            if t < p {
                assert(before[t].id != before[p].id);
            } else {
                assert(before[p].id != before[t].id);
            }
        }
    }
    let starts = positions_of(after, seq![id]);
    assert(seq![id][0] == id);
    assert(starts.contains(at));
    assert(reaches_within(after, starts, at, 0));
    assert(is_parent(after, at, t));
    assert(reaches_within(after, starts, t, 1));
}

/// Without a start nothing is reached.
pub proof fn lemma_nothing_reached_from_nothing(g: Seq<Node>, ids: Seq<ObjectId>, target: int)
    requires
        ids.len() == 0,
    ensures
        !reaches(g, positions_of(g, ids), target),
{
    assert forall|steps: nat| !reaches_within(g, positions_of(g, ids), target, steps) by {
        lemma_unreached(g, ids, target, steps);
    }
}

proof fn lemma_unreached(g: Seq<Node>, ids: Seq<ObjectId>, target: int, steps: nat)
    requires
        ids.len() == 0,
    ensures
        !reaches_within(g, positions_of(g, ids), target, steps),
    decreases steps,
{
    if steps > 0 {
        assert forall|mid: int|
            !(reaches_within(g, positions_of(g, ids), mid, (steps - 1) as nat) && #[trigger] is_parent(
                g,
                mid,
                target,
            )) by {
            lemma_unreached(g, ids, mid, (steps - 1) as nat);
        }
    }
}

/// What `latest_common` names is a common ancestor that no other one comes
/// after, and where it names none there is none.
pub proof fn lemma_latest_common(g: Seq<Node>, a: Seq<ObjectId>, b: Seq<ObjectId>)
    ensures
        match latest_common(g, a, b) {
            Some(t) => 0 <= t < g.len() && is_common(g, a, b, t) && forall|u: int|
                t < u < g.len() ==> !is_common(g, a, b, u),
            None => forall|t: int| 0 <= t < g.len() ==> !is_common(g, a, b, t),
        },
{
    if exists|t: int| 0 <= t < g.len() && is_common(g, a, b, t) {
        lemma_greatest_common_below(g, a, b, g.len() as int);
    }
}

proof fn lemma_greatest_common_below(g: Seq<Node>, a: Seq<ObjectId>, b: Seq<ObjectId>, n: int)
    requires
        0 <= n <= g.len(),
        exists|t: int| 0 <= t < n && is_common(g, a, b, t),
    ensures
        exists|t: int|
            0 <= t < n && is_common(g, a, b, t) && forall|u: int|
                t < u < n ==> !is_common(g, a, b, u),
    decreases n,
{
    if is_common(g, a, b, n - 1) {
        assert(0 <= n - 1 < n && is_common(g, a, b, n - 1) && forall|u: int|
            n - 1 < u < n ==> !is_common(g, a, b, u));
    } else {
        let t0 = choose|t: int| 0 <= t < n && is_common(g, a, b, t);
        assert(0 <= t0 < n - 1 && is_common(g, a, b, t0));
        lemma_greatest_common_below(g, a, b, n - 1);
        let t = choose|t: int|
            0 <= t < n - 1 && is_common(g, a, b, t) && forall|u: int|
                t < u < n - 1 ==> !is_common(g, a, b, u);
        assert(0 <= t < n && is_common(g, a, b, t) && forall|u: int|
            t < u < n ==> !is_common(g, a, b, u));
    }
}

/// Two histories that share no starting point have no common ancestor: where
/// either side names no node, there is none.
pub proof fn lemma_no_common_without_heads(g: Seq<Node>, a: Seq<ObjectId>, b: Seq<ObjectId>)
    requires
        a.len() == 0 || b.len() == 0,
    ensures
        latest_common(g, a, b) is None,
{
    assert forall|t: int| !is_common(g, a, b, t) by {
        if a.len() == 0 {
            lemma_nothing_reached_from_nothing(g, a, t);
        } else {
            lemma_nothing_reached_from_nothing(g, b, t);
        }
    }
}

/// More steps reach at least as much.
pub proof fn lemma_reaches_within_monotonic(
    g: Seq<Node>,
    starts: Set<int>,
    target: int,
    steps: nat,
    more: nat,
)
    requires
        reaches_within(g, starts, target, steps),
        steps <= more,
    ensures
        reaches_within(g, starts, target, more),
    decreases steps,
{
    if !starts.contains(target) {
        let mid = choose|mid: int|
            reaches_within(g, starts, mid, (steps - 1) as nat) && #[trigger] is_parent(
                g,
                mid,
                target,
            );
        lemma_reaches_within_monotonic(g, starts, mid, (steps - 1) as nat, (more - 1) as nat);
    }
}

/// An append-only history of identified nodes.
pub struct History {
    nodes: Vec<Node>,
}

impl View for History {
    type V = Seq<Node>;

    closed spec fn view(&self) -> Seq<Node> {
        self.nodes@
    }
}

/// Whether `id` is among `ids`.
pub fn contains_id(ids: &Vec<ObjectId>, id: &ObjectId) -> (found: bool)
    ensures
        found == ids@.contains(*id),
{
    let mut i: usize = 0;
    while i < ids.len()
        invariant
            i <= ids.len(),
            forall|k: int| 0 <= k < i ==> ids@[k] != *id,
        decreases ids.len() - i,
    {
        if ids[i].same(id) {
            return true;
        }
        i += 1;
    }
    false
}

impl History {
    #[verifier::type_invariant]
    spec fn inv(self) -> bool {
        well_formed(self.nodes@)
    }

    /// An empty history.
    pub fn new() -> (history: Self)
        ensures
            history@.len() == 0,
    {
        History { nodes: Vec::new() }
    }

    /// The number of nodes recorded. A history is always well formed.
    pub fn len(&self) -> (n: usize)
        ensures
            n == self@.len(),
            well_formed(self@),
    {
        proof {
            use_type_invariant(self);
        }
        self.nodes.len()
    }

    /// The position of the node identified by `id`, if it is recorded.
    pub fn position(&self, id: &ObjectId) -> (r: Option<usize>)
        ensures
            match r {
                Some(i) => position_of(self@, *id) == Some(i as int) && i < self@.len()
                    && self@[i as int].id == *id,
                None => position_of(self@, *id) is None,
            },
    {
        proof {
            use_type_invariant(self);
        }
        let mut i: usize = 0;
        while i < self.nodes.len()
            invariant
                i <= self.nodes.len(),
                well_formed(self.nodes@),
                forall|k: int| 0 <= k < i ==> self.nodes@[k].id != *id,
            decreases self.nodes.len() - i,
        {
            if self.nodes[i].id.same(id) {
                return Some(i);
            }
            i += 1;
        }
        None
    }

    /// Whether a node identified by `id` is recorded.
    pub fn contains(&self, id: &ObjectId) -> (found: bool)
        ensures
            found == position_of(self@, *id) is Some,
    {
        self.position(id).is_some()
    }

    /// The identifier of the node at position `i`.
    pub fn id_at(&self, i: usize) -> (id: ObjectId)
        requires
            i < self@.len(),
        ensures
            id == self@[i as int].id,
    {
        self.nodes[i].id
    }

    /// For every node, the least number of parent links by which it is
    /// reached from the nodes identified by `starts`, if it is reached at all.
    fn levels(&self, starts: &Vec<ObjectId>) -> (levels: Vec<Option<usize>>)
        ensures
            levels@.len() == self@.len(),
            forall|j: int, d: nat|
                0 <= j < self@.len() ==> (#[trigger] reaches_within(
                    self@,
                    positions_of(self@, starts@),
                    j,
                    d,
                ) <==> levels@[j] is Some && levels@[j]->0 <= d),
    {
        proof {
            use_type_invariant(self);
        }
        let n = self.nodes.len();
        let ghost g = self@;
        let ghost s = positions_of(g, starts@);
        let mut levels: Vec<Option<usize>> = Vec::new();
        let mut i: usize = 0;
        while i < n
            invariant
                i <= n,
                n == self.nodes@.len(),
                g == self.nodes@,
                s == positions_of(g, starts@),
                levels@.len() == i,
                forall|j: int|
                    0 <= j < i ==> #[trigger] levels@[j] == if s.contains(j) {
                        Some(0usize)
                    } else {
                        None
                    },
            decreases n - i,
        {
            let level = if contains_id(starts, &self.nodes[i].id) {
                Some(0usize)
            } else {
                None
            };
            levels.push(level);
            i += 1;
        }
        let mut b: usize = n;
        while b > 0
            invariant
                b <= n,
                n == self.nodes@.len(),
                g == self.nodes@,
                well_formed(g),
                s == positions_of(g, starts@),
                levels@.len() == n,
                forall|j: int|
                    0 <= j < n && (#[trigger] levels@[j]) is Some ==> levels@[j]->0 + j < n,
                forall|j: int|
                    0 <= j < n && (#[trigger] levels@[j]) is Some ==> reaches_within(
                        g,
                        s,
                        j,
                        levels@[j]->0 as nat,
                    ),
                forall|j: int| 0 <= j < n && s.contains(j) ==> #[trigger] levels@[j] == Some(0usize),
                forall|j: int, d: nat|
                    b <= j < n && #[trigger] reaches_within(g, s, j, d) ==> levels@[j] is Some
                        && levels@[j]->0 <= d,
                forall|k: int, j: int, d: nat|
                    b <= k < n && #[trigger] is_parent(g, k, j) && #[trigger] reaches_within(
                        g,
                        s,
                        k,
                        d,
                    ) ==> levels@[j] is Some && levels@[j]->0 <= d + 1,
            decreases b,
        {
            let j = b - 1;
            proof {
                assert forall|d: nat| #[trigger] reaches_within(g, s, j as int, d) implies levels@[j as int] is Some
                    && levels@[j as int]->0 <= d by {
                    if !s.contains(j as int) {
                        let mid = choose|mid: int|
                            reaches_within(g, s, mid, (d - 1) as nat) && #[trigger] is_parent(
                                g,
                                mid,
                                j as int,
                            );
                        let k = choose|k: int|
                            0 <= k < g[mid].parents@.len() && #[trigger] g[mid].parents@[k] == j;
                        assert(g[mid].parents@[k] < mid);
                    }
                }
            }
            match levels[j] {
                Some(x) => {
                    let mut k: usize = 0;
                    while k < self.nodes[j].parents.len()
                        invariant
                            j < n,
                            b == j + 1,
                            k <= self.nodes@[j as int].parents@.len(),
                            n == self.nodes@.len(),
                            g == self.nodes@,
                            well_formed(g),
                            s == positions_of(g, starts@),
                            levels@.len() == n,
                            levels@[j as int] == Some(x),
                            forall|i: int|
                                0 <= i < n && (#[trigger] levels@[i]) is Some ==> levels@[i]->0 + i
                                    < n,
                            forall|i: int|
                                0 <= i < n && (#[trigger] levels@[i]) is Some ==> reaches_within(
                                    g,
                                    s,
                                    i,
                                    levels@[i]->0 as nat,
                                ),
                            forall|i: int|
                                0 <= i < n && s.contains(i) ==> #[trigger] levels@[i] == Some(
                                    0usize,
                                ),
                            forall|i: int, d: nat|
                                j <= i < n && #[trigger] reaches_within(g, s, i, d) ==> levels@[i] is Some
                                    && levels@[i]->0 <= d,
                            forall|c: int, i: int, d: nat|
                                b <= c < n && #[trigger] is_parent(g, c, i)
                                    && #[trigger] reaches_within(g, s, c, d) ==> levels@[i] is Some
                                    && levels@[i]->0 <= d + 1,
                            forall|kk: int|
                                0 <= kk < k ==> levels@[(#[trigger] g[j as int].parents@[kk]) as int] is Some
                                    && levels@[g[j as int].parents@[kk] as int]->0 <= x + 1,
                        decreases self.nodes@[j as int].parents@.len() - k,
                    {
                        let p = self.nodes[j].parents[k];
                        assert(g[j as int].parents@[k as int] < j);
                        let better = match levels[p] {
                            Some(y) => y > x + 1,
                            None => true,
                        };
                        if better {
                            proof {
                                assert(is_parent(g, j as int, p as int));
                            }
                            levels[p] = Some(x + 1);
                        }
                        k += 1;
                    }
                    proof {
                        assert forall|i: int, d: nat|
                            #[trigger] is_parent(g, j as int, i) && #[trigger] reaches_within(
                                g,
                                s,
                                j as int,
                                d,
                            ) implies levels@[i] is Some && levels@[i]->0 <= d + 1 by {
                            let kk = choose|kk: int|
                                0 <= kk < g[j as int].parents@.len()
                                    && #[trigger] g[j as int].parents@[kk] == i;
                            assert(levels@[g[j as int].parents@[kk] as int] is Some);
                        }
                    }
                },
                None => {},
            }
            b = j;
        }
        proof {
            assert forall|j: int, d: nat| 0 <= j < n implies (#[trigger] reaches_within(g, s, j, d)
                <==> levels@[j] is Some && levels@[j]->0 <= d) by {
                if levels@[j] is Some && levels@[j]->0 <= d {
                    lemma_reaches_within_monotonic(g, s, j, levels@[j]->0 as nat, d);
                }
            }
        }
        levels
    }

    /// Record a node identified by `id` whose parents are the nodes
    /// identified by `parents`, and return its position.
    ///
    /// An identifier that is already recorded is refused, and so is a parent
    /// that is not; the history is then left as it was.
    pub fn append(&mut self, id: ObjectId, parents: &Vec<ObjectId>) -> (r: Result<
        usize,
        HistoryError,
    >)
        ensures
            match r {
                Ok(at) => {
                    &&& position_of(old(self)@, id) is None
                    &&& forall|k: int|
                        0 <= k < parents@.len() ==> position_of(old(self)@, #[trigger] parents@[k]) is Some
                    &&& at == old(self)@.len()
                    &&& appended(old(self)@, final(self)@, id, parents@)
                },
                Err(HistoryError::Duplicate) => {
                    &&& position_of(old(self)@, id) is Some
                    &&& final(self)@ == old(self)@
                },
                Err(HistoryError::UnknownParent) => {
                    &&& position_of(old(self)@, id) is None
                    &&& exists|k: int|
                        0 <= k < parents@.len() && position_of(old(self)@, #[trigger] parents@[k]) is None
                    &&& final(self)@ == old(self)@
                },
            },
    {
        proof {
            use_type_invariant(&*self);
        }
        if self.contains(&id) {
            return Err(HistoryError::Duplicate);
        }
        let mut positions: Vec<usize> = Vec::new();
        let mut k: usize = 0;
        while k < parents.len()
            invariant
                k <= parents.len(),
                self.nodes@ == old(self).nodes@,
                position_of(old(self)@, id) is None,
                positions@.len() == k,
                forall|i: int|
                    #![trigger positions@[i]]
                    #![trigger parents@[i]]
                    0 <= i < k ==> position_of(self.nodes@, parents@[i]) == Some(
                        positions@[i] as int,
                    ) && positions@[i] < self.nodes@.len(),
            decreases parents.len() - k,
        {
            match self.position(&parents[k]) {
                Some(at) => {
                    positions.push(at);
                },
                None => {
                    assert(position_of(old(self)@, parents@[k as int]) is None);
                    return Err(HistoryError::UnknownParent);
                },
            }
            k += 1;
        }
        let at = self.nodes.len();
        let ghost before = self.nodes@;
        let mut nodes: Vec<Node> = Vec::new();
        core::mem::swap(&mut self.nodes, &mut nodes);
        nodes.push(Node { id, parents: positions });
        proof {
            let g = nodes@;
            assert forall|i: int, j: int| 0 <= i < j < g.len() implies #[trigger] g[i].id
                != #[trigger] g[j].id by {
                if j == at {
                    assert(before[i].id != id);
                }
            }
            assert forall|i: int, k: int|
                0 <= i < g.len() && 0 <= k < g[i].parents@.len() implies (#[trigger] g[i].parents@[k])
                < i by {
                if i < at {
                    assert(g[i] == before[i]);
                }
            }
        }
        core::mem::swap(&mut self.nodes, &mut nodes);
        assert(self@[at as int].parents@ == positions@);
        assert forall|k: int| 0 <= k < parents@.len() implies position_of(
            old(self)@,
            parents@[k],
        ) == Some(#[trigger] self@[at as int].parents@[k] as int) by {
            assert(positions@[k] < before.len());
        }
        Ok(at)
    }

    /// Whether `ancestor` is `descendant` itself or one of its ancestors.
    /// An identifier that is not recorded is nobody's ancestor and has none.
    pub fn is_ancestor(&self, ancestor: &ObjectId, descendant: &ObjectId) -> (r: bool)
        ensures
            r == is_ancestor(self@, *ancestor, *descendant),
    {
        let starts = vec![*descendant];
        assert(starts@ =~= seq![*descendant]);
        self.reaches_id(&starts, ancestor)
    }

    /// Whether the node identified by `target` is recorded and belongs to
    /// the ancestor closure of the nodes identified by `from`.
    pub fn reaches_id(&self, from: &Vec<ObjectId>, target: &ObjectId) -> (r: bool)
        ensures
            r == id_reaches(self@, from@, *target),
    {
        let levels = self.levels(from);
        match self.position(target) {
            Some(t) => {
                let r = levels[t].is_some();
                proof {
                    let g = self@;
                    let s = positions_of(g, from@);
                    if r {
                        assert(reaches_within(g, s, t as int, levels@[t as int]->0 as nat));
                    }
                    if reaches(g, s, t as int) {
                        let d = choose|d: nat| reaches_within(g, s, t as int, d);
                        assert(reaches_within(g, s, t as int, d));
                    }
                }
                r
            },
            None => false,
        }
    }

    /// The most recent node that is an ancestor of (or is) both one of `a`
    /// and one of `b`, if there is any. Identifiers that are not recorded are
    /// passed over.
    pub fn common_ancestor(&self, a: &Vec<ObjectId>, b: &Vec<ObjectId>) -> (r: Option<ObjectId>)
        ensures
            match latest_common(self@, a@, b@) {
                Some(t) => r == Some(self@[t].id),
                None => r is None,
            },
    {
        let from_a = self.levels(a);
        let from_b = self.levels(b);
        let ghost g = self@;
        proof {
            assert forall|t: int| 0 <= t < g.len() implies (#[trigger] is_common(g, a@, b@, t)
                <==> from_a@[t] is Some && from_b@[t] is Some) by {
                Self::lemma_levels_reach(g, positions_of(g, a@), from_a@, t);
                Self::lemma_levels_reach(g, positions_of(g, b@), from_b@, t);
            }
        }
        let mut i: usize = self.nodes.len();
        while i > 0
            invariant
                i <= self.nodes@.len(),
                g == self.nodes@,
                from_a@.len() == g.len(),
                from_b@.len() == g.len(),
                forall|t: int|
                    0 <= t < g.len() ==> (#[trigger] is_common(g, a@, b@, t) <==> from_a@[t] is Some
                        && from_b@[t] is Some),
                forall|u: int| i <= u < g.len() ==> !is_common(g, a@, b@, u),
            decreases i,
        {
            let t = i - 1;
            if from_a[t].is_some() && from_b[t].is_some() {
                proof {
                    assert(is_common(g, a@, b@, t as int));
                    let c = latest_common(g, a@, b@)->0;
                    assert(!is_common(g, a@, b@, c) || c <= t);
                    assert(c == t);
                }
                return Some(self.nodes[t].id);
            }
            i = t;
        }
        None
    }

    /// What `levels` computes says which nodes are reached at all.
    proof fn lemma_levels_reach(g: Seq<Node>, s: Set<int>, levels: Seq<Option<usize>>, t: int)
        requires
            0 <= t < g.len(),
            levels.len() == g.len(),
            forall|j: int, d: nat|
                0 <= j < g.len() ==> (#[trigger] reaches_within(g, s, j, d) <==> levels[j] is Some
                    && levels[j]->0 <= d),
        ensures
            reaches(g, s, t) <==> levels[t] is Some,
    {
        if levels[t] is Some {
            assert(reaches_within(g, s, t, levels[t]->0 as nat));
        }
        if reaches(g, s, t) {
            let d = choose|d: nat| reaches_within(g, s, t, d);
            assert(reaches_within(g, s, t, d));
        }
    }

    /// The identifiers that a peer is missing: those of the nodes within
    /// `depth` generations of the nodes identified by `wants` that are not in
    /// the ancestor closure of the nodes identified by `haves`, oldest first.
    pub fn missing(&self, wants: &Vec<ObjectId>, haves: &Vec<ObjectId>, depth: Option<u32>) -> (r:
        Vec<ObjectId>)
        ensures
            r@ == missing_ids(self@, wants@, haves@, depth, self@.len()),
    {
        let wanted = self.levels(wants);
        let held = self.levels(haves);
        let ghost g = self@;
        let mut out: Vec<ObjectId> = Vec::new();
        let mut i: usize = 0;
        while i < self.nodes.len()
            invariant
                i <= self.nodes@.len(),
                g == self.nodes@,
                wanted@.len() == g.len(),
                held@.len() == g.len(),
                forall|j: int, d: nat|
                    0 <= j < g.len() ==> (#[trigger] reaches_within(
                        g,
                        positions_of(g, wants@),
                        j,
                        d,
                    ) <==> wanted@[j] is Some && wanted@[j]->0 <= d),
                forall|j: int, d: nat|
                    0 <= j < g.len() ==> (#[trigger] reaches_within(
                        g,
                        positions_of(g, haves@),
                        j,
                        d,
                    ) <==> held@[j] is Some && held@[j]->0 <= d),
                out@ == missing_ids(g, wants@, haves@, depth, i as nat),
            decreases self.nodes@.len() - i,
        {
            let near = match wanted[i] {
                Some(x) => match depth {
                    None => true,
                    Some(d) => x < d as usize,
                },
                None => false,
            };
            proof {
                Self::lemma_levels_reach(g, positions_of(g, wants@), wanted@, i as int);
                Self::lemma_levels_reach(g, positions_of(g, haves@), held@, i as int);
                if depth is Some && depth->0 > 0 {
                    assert(reaches_within(
                        g,
                        positions_of(g, wants@),
                        i as int,
                        (depth->0 - 1) as nat,
                    ) <==> wanted@[i as int] is Some && wanted@[i as int]->0 <= depth->0 - 1);
                }
            }
            if near && held[i].is_none() {
                out.push(self.nodes[i].id);
            }
            i += 1;
        }
        out
    }
}

} // verus!
