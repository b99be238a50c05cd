//! The dual half of the decoder: dual nodes (syndrome vertices and
//! blossoms), the interface that tracks them in an ordered arena, and the
//! contract a concrete dual backend must honor.
//!
//! Dual variables are computed lazily: the interface keeps a single global
//! progress counter, and each node caches `(value, progress)` from its last
//! state transition.  Growth is therefore constant time regardless of the
//! number of nodes.

use vstd::prelude::*;

use crate::util::NodeIndex;
use crate::util::VertexIndex;
use crate::util::EdgeIndex;
use crate::util::Weight;
use crate::util::SyndromePattern;
use crate::util::BlossomError;

verus! {

/// Hard cap on the arena length, far beyond what memory allows; it keeps the
/// bookkeeping sums representable.
pub const ARENA_CAP: usize = 0x1000_0000;

/// A dual node is either a blossom or a syndrome vertex.
#[derive(Clone, Debug)]
pub enum DualNodeClass {
    /// an odd circle of dual nodes treated as one shrinkable entity
    Blossom {
        /// the circle members, in order, as arena indices
        nodes_circle: Vec<NodeIndex>,
        /// for each circle position, the descendants through which the two
        /// incident tight circle edges touch
        touching_children: Vec<(NodeIndex, NodeIndex)>,
    },
    /// a single flagged vertex
    SyndromeVertex {
        /// the vertex this node stands on
        syndrome_index: VertexIndex,
    },
}

impl DualNodeClass {
    /// Whether this is a blossom.
    pub fn is_blossom(&self) -> (r: bool)
        ensures
            r == (self is Blossom),
    {
        matches!(self, Self::Blossom { .. })
    }
}

/// Three possible states: Grow (+1), Stay (0), Shrink (-1).
#[derive(Clone, Copy, PartialEq, Eq, Structural, Debug)]
pub enum DualNodeGrowState {
    /// dual variable rises one unit per unit of growth
    Grow,
    /// dual variable is frozen
    Stay,
    /// dual variable falls one unit per unit of growth
    Shrink,
}

/// The unit speed a grow state stands for.
pub open spec fn gs_value(gs: DualNodeGrowState) -> int {
    match gs {
        DualNodeGrowState::Grow => 1,
        DualNodeGrowState::Stay => 0,
        DualNodeGrowState::Shrink => -1,
    }
}

impl DualNodeGrowState {
    /// Whether two nodes in these states move toward each other under
    /// uniform growth.
    pub fn is_against(&self, other: &Self) -> (r: bool)
        ensures
            r == (gs_value(*self) + gs_value(*other) > 0),
    {
        match (self, other) {
            (Self::Grow, Self::Grow | Self::Stay) => true,
            (Self::Stay, Self::Grow) => true,
            _ => false,
        }
    }
}

/// Identity of a dual node: its slot in the owning interface's arena.  Slots
/// are never reused, so an index stays a stable identity for the lifetime of
/// the interface.
#[derive(Clone, Copy, PartialEq, Eq, Structural, Debug)]
pub struct DualNodePtr {
    /// the arena slot
    pub index: NodeIndex,
}

/// The last recorded dual variable of a node, and the global progress at
/// the time it was recorded.
#[derive(Clone, Copy, PartialEq, Eq, Structural, Debug)]
pub struct DualVariableCache {
    /// the dual variable at the last state transition
    pub value: Weight,
    /// the global progress at the last state transition
    pub progress: Weight,
}

/// A dual node: the entity a dual variable lives on.
#[derive(Clone, Debug)]
pub struct DualNode {
    /// the arena slot of this node, equal to its position
    pub index: NodeIndex,
    /// blossom or syndrome vertex
    pub class: DualNodeClass,
    /// whether it grows, stays or shrinks
    pub grow_state: DualNodeGrowState,
    /// the immediately enclosing blossom, if any; when set, the grow state
    /// must be Stay
    pub parent_blossom: Option<NodeIndex>,
    /// the last recorded value and the progress at that time: the dual
    /// variable is computed lazily against the interface's global progress
    pub dual_variable_cache: DualVariableCache,
}

impl DualNode {
    /// The node's dual variable under the given global progress, as an
    /// unbounded integer.
    pub open spec fn spec_dual_variable(self, global_progress: Weight) -> int {
        match self.grow_state {
            DualNodeGrowState::Grow => self.dual_variable_cache.value + (global_progress
                - self.dual_variable_cache.progress),
            DualNodeGrowState::Stay => self.dual_variable_cache.value as int,
            DualNodeGrowState::Shrink => self.dual_variable_cache.value - (global_progress
                - self.dual_variable_cache.progress),
        }
    }

    /// The circle of a blossom; empty for a syndrome vertex.
    pub open spec fn spec_circle(self) -> Seq<NodeIndex> {
        match self.class {
            DualNodeClass::Blossom { nodes_circle, .. } => nodes_circle@,
            DualNodeClass::SyndromeVertex { .. } => Seq::empty(),
        }
    }

    /// The touching children of a blossom; empty for a syndrome vertex.
    pub open spec fn spec_touching(self) -> Seq<(NodeIndex, NodeIndex)> {
        match self.class {
            DualNodeClass::Blossom { touching_children, .. } => touching_children@,
            DualNodeClass::SyndromeVertex { .. } => Seq::empty(),
        }
    }

    /// The vertex of a syndrome node; zero for a blossom.
    pub open spec fn spec_syndrome_vertex(self) -> VertexIndex {
        match self.class {
            DualNodeClass::Blossom { .. } => 0,
            DualNodeClass::SyndromeVertex { syndrome_index } => syndrome_index,
        }
    }

    /// The current dual variable of a node.
    pub fn get_dual_variable(&self, interface: &DualModuleInterface) -> (r: Weight)
        requires
            i64::MIN <= self.spec_dual_variable(interface.dual_variable_global_progress)
                <= i64::MAX,
        ensures
            r as int == self.spec_dual_variable(interface.dual_variable_global_progress),
    {
        let last_dual: Weight = self.dual_variable_cache.value;
        let last_progress: Weight = self.dual_variable_cache.progress;
        let diff: i128 = interface.dual_variable_global_progress as i128 - last_progress as i128;
        let value: i128 = match self.grow_state {
            DualNodeGrowState::Grow => last_dual as i128 + diff,
            DualNodeGrowState::Stay => last_dual as i128,
            DualNodeGrowState::Shrink => last_dual as i128 - diff,
        };
        value as i64
    }
}

/// Sum of `f` over the present nodes of an arena prefix.
pub open spec fn arena_sum(s: Seq<Option<DualNode>>, f: spec_fn(DualNode) -> int) -> int
    decreases s.len(),
{
    if s.len() == 0 {
        0
    } else {
        arena_sum(s.drop_last(), f) + match s.last() {
            Some(n) => f(n),
            None => 0,
        }
    }
}

/// Contribution of one slot to an arena sum.
pub open spec fn slot_value(v: Option<DualNode>, f: spec_fn(DualNode) -> int) -> int {
    match v {
        Some(n) => f(n),
        None => 0,
    }
}

/// The dual-variable summand under a given global progress.
pub open spec fn f_dual(progress: Weight) -> spec_fn(DualNode) -> int {
    |n: DualNode| n.spec_dual_variable(progress)
}

/// The grow-speed summand.
pub open spec fn f_speed() -> spec_fn(DualNode) -> int {
    |n: DualNode| gs_value(n.grow_state)
}

proof fn lemma_arena_sum_push(s: Seq<Option<DualNode>>, v: Option<DualNode>, f: spec_fn(
    DualNode,
) -> int)
    ensures
        arena_sum(s.push(v), f) == arena_sum(s, f) + slot_value(v, f),
{
    assert(s.push(v).drop_last() =~= s);
    assert(s.push(v).last() == v);
}

proof fn lemma_arena_sum_update(s: Seq<Option<DualNode>>, i: int, v: Option<DualNode>, f: spec_fn(
    DualNode,
) -> int)
    requires
        0 <= i < s.len(),
    ensures
        arena_sum(s.update(i, v), f) == arena_sum(s, f) - slot_value(s[i], f) + slot_value(v, f),
    decreases s.len(),
{
    let t = s.update(i, v);
    if i == s.len() - 1 {
        assert(t.drop_last() =~= s.drop_last());
        assert(t.last() == v);
    } else {
        assert(t.drop_last() =~= s.drop_last().update(i, v));
        assert(t.last() == s.last());
        lemma_arena_sum_update(s.drop_last(), i, v, f);
    }
}

proof fn lemma_arena_sum_ext(s: Seq<Option<DualNode>>, t: Seq<Option<DualNode>>, f: spec_fn(
    DualNode,
) -> int, g: spec_fn(DualNode) -> int)
    requires
        s.len() == t.len(),
        forall|j: int| 0 <= j < s.len() ==> slot_value(s[j], f) == slot_value(#[trigger] t[j], g),
    ensures
        arena_sum(s, f) == arena_sum(t, g),
    decreases s.len(),
{
    if s.len() > 0 {
        lemma_arena_sum_ext(s.drop_last(), t.drop_last(), f, g);
        assert(slot_value(s.last(), f) == slot_value(t[s.len() - 1], g));
    }
}

proof fn lemma_arena_sum_concat(s: Seq<Option<DualNode>>, t: Seq<Option<DualNode>>, f: spec_fn(
    DualNode,
) -> int)
    ensures
        arena_sum(s + t, f) == arena_sum(s, f) + arena_sum(t, f),
    decreases t.len(),
{
    if t.len() == 0 {
        assert(s + t =~= s);
    } else {
        assert((s + t).drop_last() =~= s + t.drop_last());
        assert((s + t).last() == t.last());
        lemma_arena_sum_concat(s, t.drop_last(), f);
    }
}

/// Speeds are unit-bounded, so their sum is bounded by the arena length.
proof fn lemma_speed_sum_bound(s: Seq<Option<DualNode>>)
    ensures
        -(s.len() as int) <= arena_sum(s, f_speed()) <= s.len() as int,
    decreases s.len(),
{
    if s.len() > 0 {
        lemma_speed_sum_bound(s.drop_last());
    }
}

/// Moving the global progress from `p1` to `p2` shifts the dual sum by
/// `p2 - p1` times the speed sum.
proof fn lemma_duals_shift(s: Seq<Option<DualNode>>, p1: Weight, p2: Weight)
    ensures
        arena_sum(s, f_dual(p2)) == arena_sum(s, f_dual(p1)) + (p2 - p1) * arena_sum(
            s,
            f_speed(),
        ),
    decreases s.len(),
{
    let delta = p2 - p1;
    if s.len() > 0 {
        lemma_duals_shift(s.drop_last(), p1, p2);
        let a = arena_sum(s.drop_last(), f_speed());
        let b = slot_value(s.last(), f_speed());
        assert(slot_value(s.last(), f_dual(p2)) == slot_value(s.last(), f_dual(p1)) + delta
            * b);
        assert(delta * (a + b) == delta * a + delta * b) by (nonlinear_arith);
    }
}

/// The shared arena of dual nodes: slot `i` either holds the node with index
/// `i` or stays empty after that node was destroyed; slots are never reused.
pub struct DualModuleInterface {
    /// the arena; only the prefix of length `nodes_length` is live
    pub nodes: Vec<Option<DualNode>>,
    /// logical length, enabling constant-time clear
    pub nodes_length: usize,
    /// algebraic sum of the grow speeds of all tracked nodes
    pub sum_grow_speed: Weight,
    /// running total of all tracked dual variables
    pub sum_dual_variables: Weight,
    /// rises by the growth length on every call to `grow`
    pub dual_variable_global_progress: Weight,
}

impl DualModuleInterface {
    /// The live prefix of the arena.
    pub open spec fn arena(self) -> Seq<Option<DualNode>> {
        self.nodes@.take(self.nodes_length as int)
    }

    /// Whether slot `i` holds a live node.
    pub open spec fn is_tracked(self, i: int) -> bool {
        0 <= i < self.nodes_length && i < self.nodes@.len() && self.nodes@[i] is Some
    }

    /// The node in slot `i`.
    pub open spec fn node_at(self, i: int) -> DualNode {
        self.nodes@[i].unwrap()
    }

    /// The dual variable of the node in slot `i`.
    pub open spec fn dual_of(self, i: int) -> int {
        self.node_at(i).spec_dual_variable(self.dual_variable_global_progress)
    }

    /// Sum of the grow speeds over the live prefix.
    pub open spec fn speed_sum(self) -> int {
        arena_sum(self.arena(), f_speed())
    }

    /// Sum of the dual variables over the live prefix.
    pub open spec fn duals_sum(self) -> int {
        arena_sum(self.arena(), f_dual(self.dual_variable_global_progress))
    }

    /// The outermost enclosing blossom of slot `i`: the end of its parent
    /// chain, or `i` itself when it has no parent.
    pub open spec fn spec_ancestor_of(self, i: int) -> int
        decreases self.nodes_length - i,
    {
        if self.is_tracked(i) {
            match self.node_at(i).parent_blossom {
                Some(p) => if i < p < self.nodes_length {
                    self.spec_ancestor_of(p as int)
                } else {
                    i
                },
                None => i,
            }
        } else {
            i
        }
    }

    /// Everything the per-node part of [`Self::inv`] demands of slot `i`.
    pub open spec fn node_inv(self, i: int) -> bool {
        let n = self.node_at(i);
        &&& n.index == i
        &&& 0 <= n.dual_variable_cache.progress <= self.dual_variable_global_progress
        &&& i64::MIN <= n.spec_dual_variable(self.dual_variable_global_progress) <= i64::MAX
        &&& match n.parent_blossom {
            Some(p) => {
                &&& i < p < self.nodes_length
                &&& self.is_tracked(p as int)
                &&& self.node_at(p as int).class is Blossom
                &&& self.node_at(p as int).spec_circle().contains(n.index)
                &&& n.grow_state is Stay
            },
            None => true,
        }
        &&& n.class is Blossom ==> self.blossom_inv(i)
    }

    /// Whether the parent chain of slot `x` reaches slot `m` (inclusively):
    /// `x` lies in the blossom subtree rooted at `m`.
    pub open spec fn in_subtree(self, x: int, m: int) -> bool
        decreases self.nodes_length - x,
    {
        if x == m {
            true
        } else if self.is_tracked(x) {
            match self.node_at(x).parent_blossom {
                Some(p) => x < p < self.nodes_length && self.in_subtree(p as int, m),
                None => false,
            }
        } else {
            false
        }
    }

    /// What [`Self::inv`] demands of a blossom in slot `i`: the circle and
    /// the touching list run in parallel, members are older tracked nodes
    /// pointing back at the blossom, and each touching pair descends from
    /// its circle member.
    pub open spec fn blossom_inv(self, i: int) -> bool {
        let n = self.node_at(i);
        let circle = n.spec_circle();
        let touching = n.spec_touching();
        &&& touching.len() == circle.len()
        &&& circle.len() >= 1
        &&& forall|j1: int, j2: int|
            0 <= j1 < j2 < circle.len() ==> #[trigger] circle[j1] != #[trigger] circle[j2]
        &&& forall|j: int|
            0 <= j < circle.len() ==> {
                let m = #[trigger] circle[j] as int;
                &&& m < i
                &&& self.is_tracked(m)
                &&& self.node_at(m).parent_blossom == Some(n.index)
                &&& if self.node_at(m).class is SyndromeVertex {
                    touching[j] == (circle[j], circle[j])
                } else {
                    &&& self.is_tracked(touching[j].0 as int)
                    &&& self.is_tracked(touching[j].1 as int)
                    &&& self.in_subtree(touching[j].0 as int, m)
                    &&& self.in_subtree(touching[j].1 as int, m)
                }
            }
    }

    /// Syndrome vertices are unique across all tracked syndrome nodes.
    pub open spec fn syndrome_unique(self) -> bool {
        forall|i1: int, i2: int|
            #![trigger self.node_at(i1).spec_syndrome_vertex(), self.node_at(i2).spec_syndrome_vertex()]
            self.is_tracked(i1) && self.is_tracked(i2) && i1 != i2 && self.node_at(i1).class
                is SyndromeVertex && self.node_at(i2).class is SyndromeVertex ==> self.node_at(
                i1,
            ).spec_syndrome_vertex() != self.node_at(i2).spec_syndrome_vertex()
    }

    /// The interface invariant: everything `sanity_check` verifies.
    pub open spec fn inv(self) -> bool {
        &&& self.nodes_length <= self.nodes@.len()
        &&& self.nodes@.len() <= ARENA_CAP
        &&& 0 <= self.dual_variable_global_progress
        &&& forall|i: int| #[trigger] self.is_tracked(i) ==> self.node_inv(i)
        &&& self.syndrome_unique()
        &&& self.sum_grow_speed == self.speed_sum()
        &&& self.sum_dual_variables == self.duals_sum()
    }

    /// Whether some tracked syndrome node stands on vertex `v`.
    pub open spec fn has_syndrome_vertex(self, v: VertexIndex) -> bool {
        exists|i: int|
            self.is_tracked(i) && (#[trigger] self.node_at(i)).class is SyndromeVertex
                && self.node_at(i).spec_syndrome_vertex() == v
    }

    /// An empty interface.
    pub fn new_empty() -> (r: Self)
        ensures
            r.inv(),
            r.nodes@.len() == 0,
            r.nodes_length == 0,
            r.sum_grow_speed == 0,
            r.sum_dual_variables == 0,
            r.dual_variable_global_progress == 0,
    {
        let r = DualModuleInterface {
            nodes: Vec::new(),
            nodes_length: 0,
            sum_grow_speed: 0,
            sum_dual_variables: 0,
            dual_variable_global_progress: 0,
        };
        proof {
            assert(r.arena() =~= Seq::<Option<DualNode>>::empty());
        }
        r
    }

    /// Constant-time reset for the next decoding round: the logical length
    /// and the running totals return to zero while the backing arena stays
    /// allocated.
    pub fn clear(&mut self)
        requires
            old(self).inv(),
        ensures
            final (self).inv(),
            final (self).nodes@ == old(self).nodes@,
            final (self).nodes_length == 0,
            final (self).sum_grow_speed == 0,
            final (self).sum_dual_variables == 0,
            final (self).dual_variable_global_progress == 0,
    {
        self.nodes_length = 0;
        self.sum_grow_speed = 0;
        self.sum_dual_variables = 0;
        self.dual_variable_global_progress = 0;
        proof {
            assert(self.arena() =~= Seq::<Option<DualNode>>::empty());
        }
    }

    /// Whether a node identity belongs to this interface: its slot is live.
    /// Under [`Self::inv`] the node in that slot carries the same index.
    pub fn check_ptr_belonging(&self, dual_node_ptr: &DualNodePtr) -> (r: bool)
        ensures
            r == self.is_tracked(dual_node_ptr.index as int),
    {
        if dual_node_ptr.index >= self.nodes_length {
            return false;
        }
        if dual_node_ptr.index >= self.nodes.len() {
            return false;
        }
        self.nodes[dual_node_ptr.index].is_some()
    }
}

/// Everything observable of a dual node, as mathematical values; two nodes
/// with equal views are interchangeable.
#[verifier::ext_equal]
pub ghost struct DualNodeV {
    /// arena slot
    pub index: NodeIndex,
    /// whether the node is a blossom
    pub is_blossom: bool,
    /// circle members of a blossom, empty otherwise
    pub circle: Seq<NodeIndex>,
    /// touching children of a blossom, empty otherwise
    pub touching: Seq<(NodeIndex, NodeIndex)>,
    /// vertex of a syndrome node, zero otherwise
    pub syndrome_vertex: VertexIndex,
    /// grow, stay or shrink
    pub grow_state: DualNodeGrowState,
    /// enclosing blossom
    pub parent_blossom: Option<NodeIndex>,
    /// lazy dual-variable cache
    pub dual_variable_cache: DualVariableCache,
}

/// The view of a dual node.
pub open spec fn node_view(n: DualNode) -> DualNodeV {
    DualNodeV {
        index: n.index,
        is_blossom: n.class is Blossom,
        circle: n.spec_circle(),
        touching: n.spec_touching(),
        syndrome_vertex: n.spec_syndrome_vertex(),
        grow_state: n.grow_state,
        parent_blossom: n.parent_blossom,
        dual_variable_cache: n.dual_variable_cache,
    }
}

/// An exact copy of an index list.
fn copy_index_vec(v: &Vec<NodeIndex>) -> (r: Vec<NodeIndex>)
    ensures
        r@ == v@,
{
    let mut r: Vec<NodeIndex> = Vec::new();
    let mut i: usize = 0;
    while i < v.len()
        invariant
            r@ == v@.take(i as int),
            i <= v@.len(),
        decreases v@.len() - i,
    {
        r.push(v[i]);
        i += 1;
    }
    proof {
        assert(v@.take(v@.len() as int) =~= v@);
    }
    r
}

/// An exact copy of an index-pair list.
fn copy_pair_vec(v: &Vec<(NodeIndex, NodeIndex)>) -> (r: Vec<(NodeIndex, NodeIndex)>)
    ensures
        r@ == v@,
{
    let mut r: Vec<(NodeIndex, NodeIndex)> = Vec::new();
    let mut i: usize = 0;
    while i < v.len()
        invariant
            r@ == v@.take(i as int),
            i <= v@.len(),
        decreases v@.len() - i,
    {
        r.push(v[i]);
        i += 1;
    }
    proof {
        assert(v@.take(v@.len() as int) =~= v@);
    }
    r
}

impl DualNodeClass {
    /// The circle of a blossom; empty for a syndrome vertex.
    pub open spec fn class_circle(self) -> Seq<NodeIndex> {
        match self {
            DualNodeClass::Blossom { nodes_circle, .. } => nodes_circle@,
            DualNodeClass::SyndromeVertex { .. } => Seq::empty(),
        }
    }

    /// The touching children of a blossom; empty for a syndrome vertex.
    pub open spec fn class_touching(self) -> Seq<(NodeIndex, NodeIndex)> {
        match self {
            DualNodeClass::Blossom { touching_children, .. } => touching_children@,
            DualNodeClass::SyndromeVertex { .. } => Seq::empty(),
        }
    }

    /// The vertex of a syndrome node; zero for a blossom.
    pub open spec fn class_syndrome(self) -> VertexIndex {
        match self {
            DualNodeClass::Blossom { .. } => 0,
            DualNodeClass::SyndromeVertex { syndrome_index } => syndrome_index,
        }
    }

    /// An exact copy of the class.
    fn duplicate(&self) -> (r: DualNodeClass)
        ensures
            (r is Blossom) == (self is Blossom),
            r.class_circle() == self.class_circle(),
            r.class_touching() == self.class_touching(),
            r.class_syndrome() == self.class_syndrome(),
    {
        match self {
            DualNodeClass::Blossom { nodes_circle, touching_children } => DualNodeClass::Blossom {
                nodes_circle: copy_index_vec(nodes_circle),
                touching_children: copy_pair_vec(touching_children),
            },
            DualNodeClass::SyndromeVertex { syndrome_index } => DualNodeClass::SyndromeVertex {
                syndrome_index: *syndrome_index,
            },
        }
    }
}

/// The grow speed a state stands for, as a machine value.
fn grow_speed_of(gs: DualNodeGrowState) -> (r: i64)
    ensures
        r as int == gs_value(gs),
{
    match gs {
        DualNodeGrowState::Grow => 1,
        DualNodeGrowState::Stay => 0,
        DualNodeGrowState::Shrink => -1,
    }
}

/// `in_subtree` only reads trackedness and parent links, so it is stable
/// under any change that preserves them on the old prefix.
proof fn lemma_in_subtree_frame(
    pre: DualModuleInterface,
    post: DualModuleInterface,
    x: int,
    m: int,
)
    requires
        post.nodes_length >= pre.nodes_length,
        forall|j: int|
            0 <= j < pre.nodes_length ==> post.is_tracked(j) == #[trigger] pre.is_tracked(j),
        forall|j: int|
            0 <= j < pre.nodes_length && pre.is_tracked(j) ==> (#[trigger] post.node_at(
                j,
            )).parent_blossom == pre.node_at(j).parent_blossom,
        forall|j: int|
            pre.is_tracked(j) ==> ((#[trigger] pre.node_at(j)).parent_blossom matches Some(p)
                ==> p < pre.nodes_length),
        0 <= x < pre.nodes_length,
    ensures
        post.in_subtree(x, m) == pre.in_subtree(x, m),
    decreases pre.nodes_length - x,
{
    if x != m {
        if pre.is_tracked(x) {
            match pre.node_at(x).parent_blossom {
                Some(p) => {
                    if x < p < pre.nodes_length {
                        lemma_in_subtree_frame(pre, post, p as int, m);
                    }
                },
                None => {},
            }
        }
    }
}

/// [`lemma_in_subtree_frame`] over every pair at once.
proof fn lemma_in_subtree_frame_all(pre: DualModuleInterface, post: DualModuleInterface)
    requires
        post.nodes_length >= pre.nodes_length,
        forall|j: int|
            0 <= j < pre.nodes_length ==> post.is_tracked(j) == #[trigger] pre.is_tracked(j),
        forall|j: int|
            0 <= j < pre.nodes_length && pre.is_tracked(j) ==> (#[trigger] post.node_at(
                j,
            )).parent_blossom == pre.node_at(j).parent_blossom,
        forall|j: int|
            pre.is_tracked(j) ==> ((#[trigger] pre.node_at(j)).parent_blossom matches Some(p)
                ==> p < pre.nodes_length),
    ensures
        forall|x: int, m: int|
            0 <= x < pre.nodes_length ==> #[trigger] post.in_subtree(x, m) == pre.in_subtree(
                x,
                m,
            ),
{
    assert forall|x: int, m: int|
        0 <= x < pre.nodes_length implies #[trigger] post.in_subtree(x, m) == pre.in_subtree(
        x,
        m,
    ) by {
        lemma_in_subtree_frame(pre, post, x, m);
    }
}

/// A subtree link survives any change that only gives parents to nodes
/// that had none.
proof fn lemma_in_subtree_mono(
    pre: DualModuleInterface,
    post: DualModuleInterface,
    x: int,
    m: int,
)
    requires
        post.nodes_length >= pre.nodes_length,
        forall|j: int|
            0 <= j < pre.nodes_length ==> post.is_tracked(j) == #[trigger] pre.is_tracked(j),
        forall|j: int|
            0 <= j < pre.nodes_length && pre.is_tracked(j) ==> ((#[trigger] pre.node_at(
                j,
            )).parent_blossom matches Some(p) ==> post.node_at(j).parent_blossom == Some(p) && p
                < pre.nodes_length),
        0 <= x < pre.nodes_length,
        pre.in_subtree(x, m),
    ensures
        post.in_subtree(x, m),
    decreases pre.nodes_length - x,
{
    if x != m {
        match pre.node_at(x).parent_blossom {
            Some(p) => {
                lemma_in_subtree_mono(pre, post, p as int, m);
            },
            None => {},
        }
    }
}

/// Syndrome uniqueness carries over when every tracked node keeps its
/// class and vertex.
proof fn lemma_syndrome_unique_preserved(pre: DualModuleInterface, post: DualModuleInterface)
    requires
        pre.syndrome_unique(),
        forall|j: int|
            #[trigger] post.is_tracked(j) ==> pre.is_tracked(j) && ((post.node_at(j).class
                is SyndromeVertex) == (pre.node_at(j).class is SyndromeVertex)) && post.node_at(
                j,
            ).spec_syndrome_vertex() == pre.node_at(j).spec_syndrome_vertex(),
    ensures
        post.syndrome_unique(),
{
    assert forall|i1: int, i2: int|
        post.is_tracked(i1) && post.is_tracked(i2) && i1 != i2 && post.node_at(i1).class
            is SyndromeVertex && post.node_at(i2).class is SyndromeVertex implies post.node_at(
        i1,
    ).spec_syndrome_vertex() != post.node_at(i2).spec_syndrome_vertex() by {
        assert(pre.node_at(i1).spec_syndrome_vertex() != pre.node_at(i2).spec_syndrome_vertex());
    }
}

/// Syndrome uniqueness carries over when one fresh syndrome node joins on a
/// vertex nobody held.
proof fn lemma_syndrome_unique_push(
    pre: DualModuleInterface,
    post: DualModuleInterface,
    idx: int,
    v: VertexIndex,
)
    requires
        pre.syndrome_unique(),
        forall|j: int|
            #[trigger] post.is_tracked(j) && j != idx ==> pre.is_tracked(j) && ((post.node_at(
                j,
            ).class is SyndromeVertex) == (pre.node_at(j).class is SyndromeVertex))
                && post.node_at(j).spec_syndrome_vertex() == pre.node_at(
                j,
            ).spec_syndrome_vertex(),
        post.node_at(idx).class is SyndromeVertex ==> (!pre.has_syndrome_vertex(v)
            && post.node_at(idx).spec_syndrome_vertex() == v),
    ensures
        post.syndrome_unique(),
{
    assert forall|i1: int, i2: int|
        post.is_tracked(i1) && post.is_tracked(i2) && i1 != i2 && post.node_at(i1).class
            is SyndromeVertex && post.node_at(i2).class is SyndromeVertex implies post.node_at(
        i1,
    ).spec_syndrome_vertex() != post.node_at(i2).spec_syndrome_vertex() by {
        if i1 != idx && i2 != idx {
            assert(pre.node_at(i1).spec_syndrome_vertex() != pre.node_at(
                i2,
            ).spec_syndrome_vertex());
        } else if i1 == idx {
            if post.node_at(i2).spec_syndrome_vertex() == v {
                assert(pre.is_tracked(i2) && pre.node_at(i2).class is SyndromeVertex
                    && pre.node_at(i2).spec_syndrome_vertex() == v);
                assert(pre.has_syndrome_vertex(v));
            }
        } else {
            if post.node_at(i1).spec_syndrome_vertex() == v {
                assert(pre.is_tracked(i1) && pre.node_at(i1).class is SyndromeVertex
                    && pre.node_at(i1).spec_syndrome_vertex() == v);
                assert(pre.has_syndrome_vertex(v));
            }
        }
    }
}

/// Gives the maximum length to grow, or the reason growth must stop.
#[derive(Clone, Copy, PartialEq, Eq, Debug)]
pub enum MaxUpdateLength {
    /// all constraints allow this much more growth
    NonZeroGrow(Weight),
    /// two nodes collide: `((node_1, touching_1), (node_2, touching_2))`
    Conflicting((DualNodePtr, DualNodePtr), (DualNodePtr, DualNodePtr)),
    /// a node touches a virtual vertex: `((node, touching), (vertex, is_mirror))`
    TouchingVirtual((DualNodePtr, DualNodePtr), (VertexIndex, bool)),
    /// a shrinking blossom hit zero dual variable
    BlossomNeedExpand(DualNodePtr),
    /// a shrinking syndrome node hit zero; the optional pair carries the
    /// pressing node and its touching descendant, so that two such events
    /// at one vertex can merge into a single `Conflicting`
    VertexShrinkStop((DualNodePtr, Option<(DualNodePtr, DualNodePtr)>)),
}

/// The queue a conflict group keeps: resolvable conflicts ordered by
/// priority, and shrink-stop events waiting for a partner, keyed by their
/// representative vertex.
#[derive(Clone, Debug)]
pub struct ConflictQueue {
    /// conflicts in ascending priority order; the last entry pops first
    pub heap: Vec<MaxUpdateLength>,
    /// pending shrink stops, in ascending order of their vertex key
    pub pending_stops: Vec<(VertexIndex, MaxUpdateLength)>,
}

/// Aggregation of every reason growth must stop: either the smallest safe
/// growth length, or a non-empty set of conflicts.
#[derive(Clone, Debug)]
pub enum GroupMaxUpdateLength {
    /// the minimum over all reported safe growth lengths; `Weight::MAX`
    /// means nothing was reported
    NonZeroGrow(Weight),
    /// the reported conflicts
    Conflicts(ConflictQueue),
}

/// The operations the interface invokes on a concrete dual backend.  A
/// backend cannot touch the interface (it only ever borrows it), so the
/// interface's own contracts hold whatever the backend does.
pub trait DualModuleImpl {
    /// Clears all growth and all dual nodes, preparing the next decoding.
    fn clear(&mut self);

    /// Registers a syndrome node the interface just created.
    fn add_syndrome_node(&mut self, interface: &DualModuleInterface, dual_node_ptr: DualNodePtr)
        requires
            interface.inv(),
            interface.is_tracked(dual_node_ptr.index as int),
    ;

    /// Registers a blossom the interface just created.
    fn add_blossom(&mut self, interface: &DualModuleInterface, dual_node_ptr: DualNodePtr)
        requires
            interface.inv(),
            interface.is_tracked(dual_node_ptr.index as int),
    ;

    /// Retracts a blossom about to be expanded; called while the blossom is
    /// still tracked.
    fn remove_blossom(&mut self, interface: &DualModuleInterface, dual_node_ptr: DualNodePtr)
        requires
            interface.inv(),
            interface.is_tracked(dual_node_ptr.index as int),
    ;

    /// Observes a grow-state transition just before the interface applies
    /// it, so the prior state is still visible.  During a blossom
    /// expansion the interface is mid-surgery, so only the arena's shape is
    /// promised, not the full invariant.
    fn set_grow_state(
        &mut self,
        interface: &DualModuleInterface,
        dual_node_ptr: DualNodePtr,
        grow_state: DualNodeGrowState,
    )
        requires
            interface.nodes_length <= interface.nodes@.len(),
            interface.is_tracked(dual_node_ptr.index as int),
    ;

    /// Prepares a circle of nodes for shrinking, ahead of blossom creation.
    fn prepare_nodes_shrink(
        &mut self,
        interface: &DualModuleInterface,
        nodes_circle: &Vec<DualNodePtr>,
    )
        requires
            interface.inv(),
    ;

    /// Advances every node by `length` according to its grow state.
    fn grow(&mut self, length: Weight)
        requires
            0 < length,
    ;

    /// The core oracle: the largest common growth length, or a non-empty
    /// set of conflicts.
    fn compute_maximum_update_length(&mut self, interface: &DualModuleInterface) -> (r:
        GroupMaxUpdateLength)
        requires
            interface.inv(),
        ensures
            r@.wf(),
    ;

    /// Temporarily overrides edge weights, remembering nothing; the caller
    /// keeps an [`EdgeWeightModifier`] to revert them.
    fn load_edge_modifier(&mut self, edge_modifier: &Vec<(EdgeIndex, Weight)>);

    /// An erasure makes an edge fully uncertain: its weight drops to zero.
    fn load_erasures(&mut self, erasures: &Vec<EdgeIndex>);
}

impl DualModuleInterface {
    /// Appends one live slot holding `node`, reusing the backing arena
    /// where a past `clear` left room.
    fn arena_append(&mut self, node: DualNode)
        requires
            old(self).nodes_length <= old(self).nodes@.len(),
            old(self).nodes@.len() <= ARENA_CAP,
            old(self).nodes_length < ARENA_CAP,
        ensures
            final (self).nodes_length == old(self).nodes_length + 1,
            final (self).nodes_length <= final (self).nodes@.len(),
            final (self).nodes@.len() <= ARENA_CAP,
            final (self).arena() == old(self).arena().push(Some(node)),
            forall|j: int|
                0 <= j < old(self).nodes_length ==> final (self).nodes@[j] == old(self).nodes@[j],
            final (self).node_at(old(self).nodes_length as int) == node,
            final (self).is_tracked(old(self).nodes_length as int),
            final (self).sum_grow_speed == old(self).sum_grow_speed,
            final (self).sum_dual_variables == old(self).sum_dual_variables,
            final (self).dual_variable_global_progress == old(self).dual_variable_global_progress,
    {
        let ghost pre = *self;
        let node_idx: usize = self.nodes_length;
        if self.nodes.len() < node_idx + 1 {
            self.nodes.push(None);
        }
        self.nodes.set(node_idx, Some(node));
        self.nodes_length = node_idx + 1;
        proof {
            assert(self.arena() =~= pre.arena().push(Some(node)));
        }
    }

    /// Assigns the next index, pushes a growing syndrome node, and informs
    /// the backend.
    #[verifier::rlimit(60)]
    pub fn create_syndrome_node<D: DualModuleImpl>(
        &mut self,
        vertex_idx: VertexIndex,
        dual_module_impl: &mut D,
    ) -> (r: DualNodePtr)
        requires
            old(self).inv(),
            old(self).nodes_length < ARENA_CAP,
            !old(self).has_syndrome_vertex(vertex_idx),
        ensures
            final (self).inv(),
            r.index == old(self).nodes_length,
            final (self).nodes_length == old(self).nodes_length + 1,
            final (self).arena() == old(self).arena().push(
                Some(final (self).node_at(r.index as int)),
            ),
            final (self).is_tracked(r.index as int),
            node_view(final (self).node_at(r.index as int)) == (DualNodeV {
                index: r.index,
                is_blossom: false,
                circle: Seq::empty(),
                touching: Seq::empty(),
                syndrome_vertex: vertex_idx,
                grow_state: DualNodeGrowState::Grow,
                parent_blossom: None,
                dual_variable_cache: DualVariableCache {
                    value: 0,
                    progress: old(self).dual_variable_global_progress,
                },
            }),
            forall|j: int|
                0 <= j < old(self).nodes_length ==> final (self).nodes@[j] == old(self).nodes@[j],
            final (self).sum_grow_speed == old(self).sum_grow_speed + 1,
            final (self).sum_dual_variables == old(self).sum_dual_variables,
            final (self).dual_variable_global_progress == old(self).dual_variable_global_progress,
    {
        proof {
            lemma_speed_sum_bound(self.arena());
        }
        let node_idx: usize = self.nodes_length;
        let node = DualNode {
            index: node_idx,
            class: DualNodeClass::SyndromeVertex { syndrome_index: vertex_idx },
            grow_state: DualNodeGrowState::Grow,
            parent_blossom: None,
            dual_variable_cache: DualVariableCache {
                value: 0,
                progress: self.dual_variable_global_progress,
            },
        };
        let ghost pre = *self;
        self.arena_append(node);
        self.sum_grow_speed = self.sum_grow_speed + 1;
        proof {
            lemma_arena_sum_push(pre.arena(), Some(node), f_speed());
            lemma_arena_sum_push(pre.arena(), Some(node), f_dual(
                pre.dual_variable_global_progress,
            ));
            assert(self.sum_grow_speed == self.speed_sum());
            assert(self.sum_dual_variables == self.duals_sum());
            lemma_in_subtree_frame_all(pre, *self);
            assert forall|j: int| self.is_tracked(j) implies #[trigger] self.node_inv(j) by {
                if j < pre.nodes_length as int {
                    assert(pre.is_tracked(j));
                    assert(pre.node_inv(j));
                } else {
                    assert(self.node_at(j) == node);
                }
            }
            lemma_syndrome_unique_push(pre, *self, node_idx as int, vertex_idx);
            assert(self.inv());
        }
        let node_ptr = DualNodePtr { index: node_idx };
        dual_module_impl.add_syndrome_node(&*self, node_ptr);
        node_ptr
    }

    /// Updates a root node's grow state: the backend is told first, the
    /// speed total absorbs the difference, and the node's lazy cache is
    /// refreshed so its dual variable is unchanged.
    pub fn set_grow_state<D: DualModuleImpl>(
        &mut self,
        dual_node_ptr: &DualNodePtr,
        grow_state: DualNodeGrowState,
        dual_module_impl: &mut D,
    )
        requires
            old(self).inv(),
            old(self).is_tracked(dual_node_ptr.index as int),
            old(self).node_at(dual_node_ptr.index as int).parent_blossom is None,
        ensures
            final (self).inv(),
            final (self).nodes_length == old(self).nodes_length,
            final (self).nodes@.len() == old(self).nodes@.len(),
            forall|j: int|
                0 <= j < old(self).nodes@.len() && j != dual_node_ptr.index ==> final(self).nodes@[j] == old(self).nodes@[j],
            final (self).is_tracked(dual_node_ptr.index as int),
            node_view(final (self).node_at(dual_node_ptr.index as int)) == (DualNodeV {
                grow_state,
                dual_variable_cache: DualVariableCache {
                    value: old(self).dual_of(dual_node_ptr.index as int) as i64,
                    progress: old(self).dual_variable_global_progress,
                },
                ..node_view(old(self).node_at(dual_node_ptr.index as int))
            }),
            final (self).sum_grow_speed == old(self).sum_grow_speed - gs_value(
                old(self).node_at(dual_node_ptr.index as int).grow_state,
            ) + gs_value(grow_state),
            final (self).sum_dual_variables == old(self).sum_dual_variables,
            final (self).dual_variable_global_progress == old(self).dual_variable_global_progress,
    {
        let i: usize = dual_node_ptr.index;
        dual_module_impl.set_grow_state(&*self, *dual_node_ptr, grow_state);
        proof {
            lemma_speed_sum_bound(self.arena());
            assert(self.node_inv(i as int));
        }
        let node_ref: &DualNode = self.nodes[i].as_ref().unwrap();
        let old_speed: i64 = grow_speed_of(node_ref.grow_state);
        let new_speed: i64 = grow_speed_of(grow_state);
        let current_dual: Weight = node_ref.get_dual_variable(self);
        let new_node = DualNode {
            index: node_ref.index,
            class: node_ref.class.duplicate(),
            grow_state,
            parent_blossom: node_ref.parent_blossom,
            dual_variable_cache: DualVariableCache {
                value: current_dual,
                progress: self.dual_variable_global_progress,
            },
        };
        let ghost pre = *self;
        self.sum_grow_speed = self.sum_grow_speed - old_speed + new_speed;
        self.nodes.set(i, Some(new_node));
        proof {
            assert(self.arena() =~= pre.arena().update(i as int, Some(new_node)));
            lemma_arena_sum_update(pre.arena(), i as int, Some(new_node), f_speed());
            lemma_arena_sum_update(
                pre.arena(),
                i as int,
                Some(new_node),
                f_dual(pre.dual_variable_global_progress),
            );
            assert(node_view(self.node_at(i as int)) =~= (DualNodeV {
                grow_state,
                dual_variable_cache: DualVariableCache {
                    value: pre.dual_of(i as int) as i64,
                    progress: pre.dual_variable_global_progress,
                },
                ..node_view(pre.node_at(i as int))
            }));
            lemma_in_subtree_frame_all(pre, *self);
            assert forall|j: int| self.is_tracked(j) implies #[trigger] self.node_inv(j) by {
                assert(pre.is_tracked(j));
                assert(pre.node_inv(j));
            }
            lemma_syndrome_unique_preserved(pre, *self);
        }
    }

    /// Grows the whole dual module by `length`: the backend advances, the
    /// dual total rises by `length` times the speed total, and the global
    /// progress counter moves forward.
    pub fn grow<D: DualModuleImpl>(&mut self, length: Weight, dual_module_impl: &mut D)
        requires
            old(self).inv(),
            0 < length,
            old(self).dual_variable_global_progress + length <= i64::MAX,
            i64::MIN <= old(self).sum_dual_variables + length * old(self).sum_grow_speed
                <= i64::MAX,
            forall|i: int|
                old(self).is_tracked(i) ==> i64::MIN <= (#[trigger] old(self).node_at(
                    i,
                )).spec_dual_variable((old(self).dual_variable_global_progress + length) as i64)
                    <= i64::MAX,
        ensures
            final (self).inv(),
            final (self).nodes@ == old(self).nodes@,
            final (self).nodes_length == old(self).nodes_length,
            final (self).sum_grow_speed == old(self).sum_grow_speed,
            final (self).sum_dual_variables == old(self).sum_dual_variables + length * old(self).sum_grow_speed,
            final (self).dual_variable_global_progress == old(self).dual_variable_global_progress
                + length,
    {
        dual_module_impl.grow(length);
        let sum: i128 = self.sum_dual_variables as i128 + (length as i128)
            * (self.sum_grow_speed as i128);
        let ghost pre = *self;
        self.sum_dual_variables = sum as i64;
        self.dual_variable_global_progress = self.dual_variable_global_progress + length;
        proof {
            assert(self.arena() =~= pre.arena());
            lemma_duals_shift(
                pre.arena(),
                pre.dual_variable_global_progress,
                self.dual_variable_global_progress,
            );
            lemma_in_subtree_frame_all(pre, *self);
            assert forall|j: int| self.is_tracked(j) implies #[trigger] self.node_inv(j) by {
                assert(pre.is_tracked(j));
                assert(pre.node_inv(j));
            }
            lemma_syndrome_unique_preserved(pre, *self);
        }
    }
}

/// The indices a list of node identities stands for.
pub open spec fn ptr_indices(s: Seq<DualNodePtr>) -> Seq<NodeIndex> {
    s.map_values(|p: DualNodePtr| p.index)
}

/// The index pairs a list of identity pairs stands for.
pub open spec fn ptr_pair_indices(s: Seq<(DualNodePtr, DualNodePtr)>) -> Seq<
    (NodeIndex, NodeIndex),
> {
    s.map_values(|p: (DualNodePtr, DualNodePtr)| (p.0.index, p.1.index))
}

/// The per-node invariant of every slot after `create_blossom`: the fresh
/// blossom satisfies it by construction, members point back at it, and
/// every old node's clauses survive.
#[verifier::rlimit(100)]
proof fn lemma_create_blossom_node_inv(
    pre: DualModuleInterface,
    post: DualModuleInterface,
    circle: Seq<DualNodePtr>,
    touching_view: Seq<(DualNodePtr, DualNodePtr)>,
    bn: DualNode,
    blossom_index: NodeIndex,
)
    requires
        pre.inv(),
        blossom_index == pre.nodes_length,
        circle.len() >= 1,
        touching_view.len() == circle.len(),
        forall|j1: int, j2: int|
            0 <= j1 < j2 < circle.len() ==> (#[trigger] circle[j1]).index != (
            #[trigger] circle[j2]).index,
        forall|j: int|
            0 <= j < circle.len() ==> {
                let m = (#[trigger] circle[j]).index as int;
                &&& pre.is_tracked(m)
                &&& pre.node_at(m).parent_blossom is None
            },
        forall|j: int|
            0 <= j < circle.len() ==> {
                let m = (#[trigger] circle[j]).index as int;
                if pre.node_at(m).class is SyndromeVertex {
                    touching_view[j] == (circle[j], circle[j])
                } else {
                    &&& pre.is_tracked(touching_view[j].0.index as int)
                    &&& pre.is_tracked(touching_view[j].1.index as int)
                    &&& pre.in_subtree(touching_view[j].0.index as int, m)
                    &&& pre.in_subtree(touching_view[j].1.index as int, m)
                }
            },
        node_view(bn) == (DualNodeV {
            index: blossom_index,
            is_blossom: true,
            circle: ptr_indices(circle),
            touching: ptr_pair_indices(touching_view),
            syndrome_vertex: 0,
            grow_state: DualNodeGrowState::Grow,
            parent_blossom: None,
            dual_variable_cache: DualVariableCache {
                value: 0,
                progress: pre.dual_variable_global_progress,
            },
        }),
        post.nodes_length == pre.nodes_length + 1,
        post.nodes_length <= post.nodes@.len(),
        post.dual_variable_global_progress == pre.dual_variable_global_progress,
        post.node_at(blossom_index as int) == bn,
        post.is_tracked(blossom_index as int),
        forall|s: int|
            0 <= s < pre.nodes_length ==> #[trigger] post.is_tracked(s) == pre.is_tracked(s),
        forall|kk: int|
            0 <= kk < circle.len() ==> node_view(
                post.node_at((#[trigger] circle[kk]).index as int),
            ) == (DualNodeV {
                grow_state: DualNodeGrowState::Stay,
                parent_blossom: Some(blossom_index),
                dual_variable_cache: DualVariableCache {
                    value: pre.dual_of(circle[kk].index as int) as i64,
                    progress: pre.dual_variable_global_progress,
                },
                ..node_view(pre.node_at(circle[kk].index as int))
            }),
        forall|s: int|
            0 <= s < pre.nodes_length && !ptr_indices(circle).contains(s as NodeIndex)
                ==> post.nodes@[s] == #[trigger] pre.nodes@[s],
    ensures
        forall|j: int| post.is_tracked(j) ==> #[trigger] post.node_inv(j),
{
    let b = blossom_index as int;
    let li = circle.len() as int;
    let cidx = ptr_indices(circle);
    // old subtree links survive: only parent-less nodes gained parents
    assert forall|x: int, m: int|
        #![trigger post.in_subtree(x, m)]
        0 <= x < pre.nodes_length && pre.in_subtree(x, m) implies post.in_subtree(x, m) by {
        lemma_in_subtree_mono(pre, post, x, m);
    }
    assert forall|j: int| post.is_tracked(j) implies #[trigger] post.node_inv(j) by {
        if j == b {
            assert(post.node_at(j) == bn);
            assert(post.node_at(j).spec_circle() == cidx);
            assert(post.node_at(j).spec_touching() == ptr_pair_indices(touching_view));
            assert forall|kk: int| 0 <= kk < li implies {
                let m = (#[trigger] cidx[kk]) as int;
                &&& m < j
                &&& post.is_tracked(m)
                &&& post.node_at(m).parent_blossom == Some(bn.index)
                &&& if post.node_at(m).class is SyndromeVertex {
                    ptr_pair_indices(touching_view)[kk] == (cidx[kk], cidx[kk])
                } else {
                    &&& post.is_tracked(ptr_pair_indices(touching_view)[kk].0 as int)
                    &&& post.is_tracked(ptr_pair_indices(touching_view)[kk].1 as int)
                    &&& post.in_subtree(ptr_pair_indices(touching_view)[kk].0 as int, m)
                    &&& post.in_subtree(ptr_pair_indices(touching_view)[kk].1 as int, m)
                }
            } by {
                let m = cidx[kk] as int;
                assert(circle[kk].index as int == m);
                assert(pre.is_tracked(m));
                assert(pre.node_inv(m));
                assert((post.node_at(m).class is SyndromeVertex) == (pre.node_at(m).class
                    is SyndromeVertex));
                if pre.node_at(m).class is SyndromeVertex {
                    assert(touching_view[kk] == (circle[kk], circle[kk]));
                } else {
                    let t0 = touching_view[kk].0.index as int;
                    let t1 = touching_view[kk].1.index as int;
                    assert(pre.is_tracked(t0) && pre.is_tracked(t1));
                    assert(pre.in_subtree(t0, m) && pre.in_subtree(t1, m));
                    assert(post.in_subtree(t0, m) && post.in_subtree(t1, m));
                }
            }
            assert(post.blossom_inv(j));
        } else {
            assert(pre.is_tracked(j));
            assert(pre.node_inv(j));
            let n_pre = pre.node_at(j);
            if cidx.contains(j as NodeIndex) {
                let kk = choose|kk: int| 0 <= kk < li && cidx[kk] == j as NodeIndex;
                assert(circle[kk].index as int == j);
                assert(post.node_at(b).spec_circle().contains(j as NodeIndex));
            }
            if n_pre.class is Blossom {
                assert((post.node_at(j).class is Blossom) && post.node_at(j).spec_circle()
                    == n_pre.spec_circle() && post.node_at(j).spec_touching()
                    == n_pre.spec_touching());
                assert forall|kk: int| 0 <= kk < n_pre.spec_circle().len() implies {
                    let m = (#[trigger] n_pre.spec_circle()[kk]) as int;
                    &&& post.is_tracked(m)
                    &&& post.node_at(m).parent_blossom == pre.node_at(m).parent_blossom
                    &&& (post.node_at(m).class is SyndromeVertex) == (pre.node_at(m).class
                        is SyndromeVertex)
                    &&& post.node_at(m).grow_state == pre.node_at(m).grow_state
                } by {
                    let m = n_pre.spec_circle()[kk] as int;
                    assert(pre.is_tracked(m));
                    assert(pre.node_at(m).parent_blossom == Some(n_pre.index));
                    assert(!cidx.contains(m as NodeIndex)) by {
                        if cidx.contains(m as NodeIndex) {
                            let k3 = choose|k3: int| 0 <= k3 < li && cidx[k3] == m as NodeIndex;
                            assert(circle[k3].index as int == m);
                            assert(pre.node_at(m).parent_blossom is None);
                        }
                    }
                    assert(post.nodes@[m] == pre.nodes@[m]);
                }
                assert(post.blossom_inv(j));
            }
            assert(post.node_inv(j));
        }
    }
}

/// Ties the four snapshots of `create_blossom` together: from the entry
/// state through the Stay pass and the parent pass to the appended blossom,
/// the invariant is restored and the stated views hold.
#[verifier::rlimit(100)]
proof fn lemma_create_blossom_post(
    pre: DualModuleInterface,
    mid: DualModuleInterface,
    lined: DualModuleInterface,
    post: DualModuleInterface,
    circle: Seq<DualNodePtr>,
    touching_view: Seq<(DualNodePtr, DualNodePtr)>,
    bn: DualNode,
    blossom_index: NodeIndex,
)
    requires
        pre.inv(),
        pre.nodes_length < ARENA_CAP,
        blossom_index == pre.nodes_length,
        circle.len() >= 1,
        touching_view.len() == circle.len(),
        forall|j1: int, j2: int|
            0 <= j1 < j2 < circle.len() ==> (#[trigger] circle[j1]).index != (
            #[trigger] circle[j2]).index,
        forall|j: int|
            0 <= j < circle.len() ==> {
                let m = (#[trigger] circle[j]).index as int;
                &&& pre.is_tracked(m)
                &&& pre.node_at(m).parent_blossom is None
                &&& pre.node_at(m).grow_state == (if j % 2 == 0 {
                    DualNodeGrowState::Grow
                } else {
                    DualNodeGrowState::Shrink
                })
            },
        forall|j: int|
            0 <= j < circle.len() ==> {
                let m = (#[trigger] circle[j]).index as int;
                if pre.node_at(m).class is SyndromeVertex {
                    touching_view[j] == (circle[j], circle[j])
                } else {
                    &&& pre.is_tracked(touching_view[j].0.index as int)
                    &&& pre.is_tracked(touching_view[j].1.index as int)
                    &&& pre.in_subtree(touching_view[j].0.index as int, m)
                    &&& pre.in_subtree(touching_view[j].1.index as int, m)
                }
            },
        // after the Stay pass
        mid.inv(),
        mid.nodes_length == pre.nodes_length,
        mid.nodes@.len() == pre.nodes@.len(),
        mid.dual_variable_global_progress == pre.dual_variable_global_progress,
        mid.sum_dual_variables == pre.sum_dual_variables,
        mid.sum_grow_speed == pre.sum_grow_speed - (circle.len() as int % 2),
        forall|k: int|
            0 <= k < circle.len() ==> mid.nodes@[(#[trigger] circle[k]).index as int] is Some
                && node_view(mid.node_at(circle[k].index as int)) == (DualNodeV {
                grow_state: DualNodeGrowState::Stay,
                dual_variable_cache: DualVariableCache {
                    value: pre.dual_of(circle[k].index as int) as i64,
                    progress: pre.dual_variable_global_progress,
                },
                ..node_view(pre.node_at(circle[k].index as int))
            }),
        forall|s: int|
            0 <= s < pre.nodes@.len() && !ptr_indices(circle).contains(s as NodeIndex)
                ==> mid.nodes@[s] == #[trigger] pre.nodes@[s],
        // after the parent pass
        lined.nodes_length == mid.nodes_length,
        lined.nodes@.len() == mid.nodes@.len(),
        lined.dual_variable_global_progress == mid.dual_variable_global_progress,
        lined.sum_dual_variables == mid.sum_dual_variables,
        lined.sum_grow_speed == mid.sum_grow_speed,
        forall|k: int|
            0 <= k < circle.len() ==> lined.nodes@[(#[trigger] circle[k]).index as int] is Some
                && node_view(lined.node_at(circle[k].index as int)) == (DualNodeV {
                parent_blossom: Some(blossom_index),
                ..node_view(mid.node_at(circle[k].index as int))
            }),
        forall|s: int|
            0 <= s < mid.nodes@.len() && !ptr_indices(circle).contains(s as NodeIndex)
                ==> lined.nodes@[s] == #[trigger] mid.nodes@[s],
        // after appending the blossom
        node_view(bn) == (DualNodeV {
            index: blossom_index,
            is_blossom: true,
            circle: ptr_indices(circle),
            touching: ptr_pair_indices(touching_view),
            syndrome_vertex: 0,
            grow_state: DualNodeGrowState::Grow,
            parent_blossom: None,
            dual_variable_cache: DualVariableCache {
                value: 0,
                progress: pre.dual_variable_global_progress,
            },
        }),
        post.nodes_length == lined.nodes_length + 1,
        post.nodes_length <= post.nodes@.len(),
        post.nodes@.len() <= ARENA_CAP,
        post.arena() == lined.arena().push(Some(bn)),
        forall|j: int|
            0 <= j < lined.nodes_length ==> post.nodes@[j] == #[trigger] lined.nodes@[j],
        post.node_at(blossom_index as int) == bn,
        post.is_tracked(blossom_index as int),
        post.sum_grow_speed == lined.sum_grow_speed + 1,
        post.sum_dual_variables == lined.sum_dual_variables,
        post.dual_variable_global_progress == lined.dual_variable_global_progress,
    ensures
        post.inv(),
        forall|j: int|
            0 <= j < circle.len() ==> node_view(
                post.node_at((#[trigger] circle[j]).index as int),
            ) == (DualNodeV {
                grow_state: DualNodeGrowState::Stay,
                parent_blossom: Some(blossom_index),
                dual_variable_cache: DualVariableCache {
                    value: pre.dual_of(circle[j].index as int) as i64,
                    progress: pre.dual_variable_global_progress,
                },
                ..node_view(pre.node_at(circle[j].index as int))
            }),
        forall|k: int|
            0 <= k < pre.nodes_length && !ptr_indices(circle).contains(k as NodeIndex)
                ==> post.nodes@[k] == #[trigger] pre.nodes@[k],
        node_view(post.node_at(blossom_index as int)) == (DualNodeV {
            index: blossom_index,
            is_blossom: true,
            circle: ptr_indices(circle),
            touching: ptr_pair_indices(touching_view),
            syndrome_vertex: 0,
            grow_state: DualNodeGrowState::Grow,
            parent_blossom: None,
            dual_variable_cache: DualVariableCache {
                value: 0,
                progress: pre.dual_variable_global_progress,
            },
        }),
{
    let b = blossom_index as int;
    let li = circle.len() as int;
    let cidx = ptr_indices(circle);
    // a member's slot, from entry to exit, in one step
    assert forall|kk: int| 0 <= kk < li implies {
        let m = (#[trigger] circle[kk]).index as int;
        &&& post.nodes@[m] is Some
        &&& node_view(post.node_at(m)) == (DualNodeV {
            grow_state: DualNodeGrowState::Stay,
            parent_blossom: Some(blossom_index),
            dual_variable_cache: DualVariableCache {
                value: pre.dual_of(m) as i64,
                progress: pre.dual_variable_global_progress,
            },
            ..node_view(pre.node_at(m))
        })
    } by {
        let m = circle[kk].index as int;
        assert(post.nodes@[m] == lined.nodes@[m]);
        assert(node_view(post.node_at(m)) =~= (DualNodeV {
            grow_state: DualNodeGrowState::Stay,
            parent_blossom: Some(blossom_index),
            dual_variable_cache: DualVariableCache {
                value: pre.dual_of(m) as i64,
                progress: pre.dual_variable_global_progress,
            },
            ..node_view(pre.node_at(m))
        }));
    }
    // slots outside the circle never moved
    assert forall|s: int|
        0 <= s < pre.nodes_length && !cidx.contains(s as NodeIndex) implies post.nodes@[s]
            == pre.nodes@[s] by {
        assert(lined.nodes@[s] == mid.nodes@[s]);
        assert(mid.nodes@[s] == pre.nodes@[s]);
    }
    // trackedness is pointwise preserved below the blossom
    assert forall|s: int|
        0 <= s < pre.nodes_length implies #[trigger] post.is_tracked(s) == pre.is_tracked(s) by {
        if cidx.contains(s as NodeIndex) {
            let kk = choose|kk: int| 0 <= kk < li && cidx[kk] == s as NodeIndex;
            assert(circle[kk].index as int == s);
        } else {
            assert(post.nodes@[s] == pre.nodes@[s]);
        }
    }
    // the view of every old node determines its sum contributions
    assert(lined.arena().len() == mid.arena().len());
    assert forall|s: int| 0 <= s < mid.arena().len() implies slot_value(
        #[trigger] mid.arena()[s],
        f_speed(),
    ) == slot_value(lined.arena()[s], f_speed()) && slot_value(
        mid.arena()[s],
        f_dual(mid.dual_variable_global_progress),
    ) == slot_value(lined.arena()[s], f_dual(mid.dual_variable_global_progress)) by {
        if cidx.contains(s as NodeIndex) {
            let kk = choose|kk: int| 0 <= kk < li && cidx[kk] == s as NodeIndex;
            assert(circle[kk].index as int == s);
            assert(node_view(lined.node_at(s)) == (DualNodeV {
                parent_blossom: Some(blossom_index),
                ..node_view(mid.node_at(s))
            }));
        } else {
            assert(lined.nodes@[s] == mid.nodes@[s]);
        }
    }
    lemma_arena_sum_ext(mid.arena(), lined.arena(), f_speed(), f_speed());
    lemma_arena_sum_ext(
        mid.arena(),
        lined.arena(),
        f_dual(mid.dual_variable_global_progress),
        f_dual(mid.dual_variable_global_progress),
    );
    lemma_arena_sum_push(lined.arena(), Some(bn), f_speed());
    lemma_arena_sum_push(lined.arena(), Some(bn), f_dual(mid.dual_variable_global_progress));
    assert(slot_value(Some(bn), f_speed()) == 1);
    assert(slot_value(Some(bn), f_dual(mid.dual_variable_global_progress)) == 0);
    assert(post.sum_grow_speed == post.speed_sum());
    assert(post.sum_dual_variables == post.duals_sum());
    lemma_create_blossom_node_inv(pre, post, circle, touching_view, bn, blossom_index);
    lemma_syndrome_unique_push(pre, post, b, 0);
    assert(post.inv());
}

impl DualModuleInterface {
    /// Rewrites one node's parent link, touching nothing else; the caller
    /// restores the invariant.
    fn set_parent_raw(&mut self, i: usize, parent: NodeIndex)
        requires
            i < old(self).nodes_length,
            old(self).nodes_length <= old(self).nodes@.len(),
            old(self).nodes@[i as int] is Some,
        ensures
            final (self).nodes_length == old(self).nodes_length,
            final (self).nodes@.len() == old(self).nodes@.len(),
            forall|j: int|
                0 <= j < old(self).nodes@.len() && j != i ==> final (self).nodes@[j] == old(self).nodes@[j],
            final (self).nodes@[i as int] is Some,
            node_view(final (self).node_at(i as int)) == (DualNodeV {
                parent_blossom: Some(parent),
                ..node_view(old(self).node_at(i as int))
            }),
            final (self).sum_grow_speed == old(self).sum_grow_speed,
            final (self).sum_dual_variables == old(self).sum_dual_variables,
            final (self).dual_variable_global_progress == old(self).dual_variable_global_progress,
    {
        let node_ref: &DualNode = self.nodes[i].as_ref().unwrap();
        let new_node = DualNode {
            index: node_ref.index,
            class: node_ref.class.duplicate(),
            grow_state: node_ref.grow_state,
            parent_blossom: Some(parent),
            dual_variable_cache: node_ref.dual_variable_cache,
        };
        self.nodes.set(i, Some(new_node));
        proof {
            assert(node_view(self.node_at(i as int)) =~= (DualNodeV {
                parent_blossom: Some(parent),
                ..node_view(old(self).node_at(i as int))
            }));
        }
    }

    /// Creates a blossom from a circle that alternates Grow, Shrink, …:
    /// every member is forced to Stay and linked to the new blossom, which
    /// starts growing under the next index.  An empty `touching_children`
    /// list defaults each entry to the member itself, which is only
    /// permitted when every member is a syndrome node.
    #[verifier::rlimit(100)]
    pub fn create_blossom<D: DualModuleImpl>(
        &mut self,
        nodes_circle: Vec<DualNodePtr>,
        touching_children: Vec<(DualNodePtr, DualNodePtr)>,
        dual_module_impl: &mut D,
    ) -> (r: DualNodePtr)
        requires
            old(self).inv(),
            old(self).nodes_length < ARENA_CAP,
            nodes_circle@.len() >= 1,
            touching_children@.len() == 0 || touching_children@.len() == nodes_circle@.len(),
            forall|j1: int, j2: int|
                0 <= j1 < j2 < nodes_circle@.len() ==> (#[trigger] nodes_circle@[j1]).index != (
                #[trigger] nodes_circle@[j2]).index,
            forall|j: int|
                0 <= j < nodes_circle@.len() ==> {
                    let m = (#[trigger] nodes_circle@[j]).index as int;
                    &&& old(self).is_tracked(m)
                    &&& old(self).node_at(m).parent_blossom is None
                    &&& old(self).node_at(m).grow_state == (if j % 2 == 0 {
                        DualNodeGrowState::Grow
                    } else {
                        DualNodeGrowState::Shrink
                    })
                },
            touching_children@.len() == 0 ==> forall|j: int|
                0 <= j < nodes_circle@.len() ==> old(self).node_at(
                    (#[trigger] nodes_circle@[j]).index as int,
                ).class is SyndromeVertex,
            touching_children@.len() != 0 ==> forall|j: int|
                0 <= j < nodes_circle@.len() ==> {
                    let m = (#[trigger] nodes_circle@[j]).index as int;
                    if old(self).node_at(m).class is SyndromeVertex {
                        touching_children@[j] == (nodes_circle@[j], nodes_circle@[j])
                    } else {
                        &&& old(self).is_tracked(touching_children@[j].0.index as int)
                        &&& old(self).is_tracked(touching_children@[j].1.index as int)
                        &&& old(self).in_subtree(touching_children@[j].0.index as int, m)
                        &&& old(self).in_subtree(touching_children@[j].1.index as int, m)
                    }
                },
        ensures
            final (self).inv(),
            r.index == old(self).nodes_length,
            final (self).nodes_length == old(self).nodes_length + 1,
            final (self).is_tracked(r.index as int),
            node_view(final (self).node_at(r.index as int)) == (DualNodeV {
                index: r.index,
                is_blossom: true,
                circle: ptr_indices(nodes_circle@),
                touching: if touching_children@.len() == 0 {
                    ptr_pair_indices(nodes_circle@.map_values(|p: DualNodePtr| (p, p)))
                } else {
                    ptr_pair_indices(touching_children@)
                },
                syndrome_vertex: 0,
                grow_state: DualNodeGrowState::Grow,
                parent_blossom: None,
                dual_variable_cache: DualVariableCache {
                    value: 0,
                    progress: old(self).dual_variable_global_progress,
                },
            }),
            forall|j: int|
                0 <= j < nodes_circle@.len() ==> node_view(
                    final (self).node_at((#[trigger] nodes_circle@[j]).index as int),
                ) == (DualNodeV {
                    grow_state: DualNodeGrowState::Stay,
                    parent_blossom: Some(r.index),
                    dual_variable_cache: DualVariableCache {
                        value: old(self).dual_of(nodes_circle@[j].index as int) as i64,
                        progress: old(self).dual_variable_global_progress,
                    },
                    ..node_view(old(self).node_at(nodes_circle@[j].index as int))
                }),
            forall|k: int|
                0 <= k < old(self).nodes_length && !ptr_indices(nodes_circle@).contains(
                    k as NodeIndex,
                ) ==> final (self).nodes@[k] == old(self).nodes@[k],
            final (self).sum_grow_speed == old(self).sum_grow_speed - (nodes_circle@.len() as int
                % 2) + 1,
            final (self).sum_dual_variables == old(self).sum_dual_variables,
            final (self).dual_variable_global_progress == old(self).dual_variable_global_progress,
    {
        let ghost pre = *self;
        let circle_len: usize = nodes_circle.len();
        // force every member to Stay, refreshing its dual-variable cache
        let mut j: usize = 0;
        while j < circle_len
            invariant
                pre.inv(),
                j <= circle_len,
                circle_len == nodes_circle@.len(),
                self.inv(),
                self.nodes_length == pre.nodes_length,
                self.nodes@.len() == pre.nodes@.len(),
                self.dual_variable_global_progress == pre.dual_variable_global_progress,
                self.sum_dual_variables == pre.sum_dual_variables,
                self.sum_grow_speed == pre.sum_grow_speed - (j as int % 2),
                forall|j1: int, j2: int|
                    0 <= j1 < j2 < nodes_circle@.len() ==> (#[trigger] nodes_circle@[j1]).index
                        != (#[trigger] nodes_circle@[j2]).index,
                forall|k: int|
                    0 <= k < nodes_circle@.len() ==> {
                        let m = (#[trigger] nodes_circle@[k]).index as int;
                        &&& pre.is_tracked(m)
                        &&& pre.node_at(m).parent_blossom is None
                        &&& pre.node_at(m).grow_state == (if k % 2 == 0 {
                            DualNodeGrowState::Grow
                        } else {
                            DualNodeGrowState::Shrink
                        })
                    },
                forall|k: int|
                    0 <= k < j ==> self.nodes@[(#[trigger] nodes_circle@[k]).index as int]
                        is Some && node_view(
                        self.node_at(nodes_circle@[k].index as int),
                    ) == (DualNodeV {
                        grow_state: DualNodeGrowState::Stay,
                        dual_variable_cache: DualVariableCache {
                            value: pre.dual_of(nodes_circle@[k].index as int) as i64,
                            progress: pre.dual_variable_global_progress,
                        },
                        ..node_view(pre.node_at(nodes_circle@[k].index as int))
                    }),
                forall|s: int|
                    0 <= s < pre.nodes@.len() && !ptr_indices(nodes_circle@).take(
                        j as int,
                    ).contains(s as NodeIndex) ==> self.nodes@[s] == pre.nodes@[s],
            decreases circle_len - j,
        {
            let ptr = nodes_circle[j];
            proof {
                assert(ptr_indices(nodes_circle@).take(j as int).contains(ptr.index) ==> exists|
                    k: int,
                |
                    0 <= k < j && nodes_circle@[k].index == ptr.index);
                assert(self.nodes@[ptr.index as int] == pre.nodes@[ptr.index as int]);
            }
            self.set_grow_state(&ptr, DualNodeGrowState::Stay, dual_module_impl);
            proof {
                assert forall|s: int|
                    0 <= s < pre.nodes@.len() && !ptr_indices(nodes_circle@).take(
                        j as int + 1,
                    ).contains(s as NodeIndex) implies self.nodes@[s] == pre.nodes@[s] by {
                    assert(ptr_indices(nodes_circle@).take(j as int + 1)[j as int] == ptr.index);
                    assert(!ptr_indices(nodes_circle@).take(j as int).contains(s as NodeIndex))
                        by {
                        if ptr_indices(nodes_circle@).take(j as int).contains(s as NodeIndex) {
                            let k = choose|k: int|
                                0 <= k < j && ptr_indices(nodes_circle@).take(j as int)[k] == s;
                            assert(ptr_indices(nodes_circle@).take(j as int + 1)[k]
                                == s as NodeIndex);
                        }
                    }
                }
            }
            j += 1;
        }
        // link every member to the new blossom
        let blossom_index: usize = self.nodes_length;
        let ghost mid = *self;
        let mut j2: usize = 0;
        while j2 < circle_len
            invariant
                j2 <= circle_len,
                circle_len == nodes_circle@.len(),
                mid.nodes_length <= mid.nodes@.len(),
                self.nodes_length == mid.nodes_length,
                self.nodes@.len() == mid.nodes@.len(),
                self.dual_variable_global_progress == mid.dual_variable_global_progress,
                self.sum_dual_variables == mid.sum_dual_variables,
                self.sum_grow_speed == mid.sum_grow_speed,
                forall|j1: int, j22: int|
                    0 <= j1 < j22 < nodes_circle@.len() ==> (#[trigger] nodes_circle@[j1]).index
                        != (#[trigger] nodes_circle@[j22]).index,
                forall|k: int|
                    0 <= k < nodes_circle@.len() ==> 0 <= (#[trigger] nodes_circle@[k]).index
                        < mid.nodes_length && mid.nodes@[nodes_circle@[k].index as int] is Some,
                forall|k: int|
                    0 <= k < j2 ==> self.nodes@[(#[trigger] nodes_circle@[k]).index as int]
                        is Some && node_view(self.node_at(nodes_circle@[k].index as int)) == (
                    DualNodeV {
                        parent_blossom: Some(blossom_index),
                        ..node_view(mid.node_at(nodes_circle@[k].index as int))
                    }),
                forall|s: int|
                    0 <= s < mid.nodes@.len() && !ptr_indices(nodes_circle@).take(
                        j2 as int,
                    ).contains(s as NodeIndex) ==> self.nodes@[s] == mid.nodes@[s],
            decreases circle_len - j2,
        {
            let ptr = nodes_circle[j2];
            proof {
                assert(ptr_indices(nodes_circle@).take(j2 as int).contains(ptr.index) ==> exists|
                    k: int,
                |
                    0 <= k < j2 && nodes_circle@[k].index == ptr.index);
                assert(self.nodes@[ptr.index as int] == mid.nodes@[ptr.index as int]);
            }
            self.set_parent_raw(ptr.index, blossom_index);
            proof {
                assert forall|s: int|
                    0 <= s < mid.nodes@.len() && !ptr_indices(nodes_circle@).take(
                        j2 as int + 1,
                    ).contains(s as NodeIndex) implies self.nodes@[s] == mid.nodes@[s] by {
                    assert(ptr_indices(nodes_circle@).take(j2 as int + 1)[j2 as int]
                        == ptr.index);
                    assert(!ptr_indices(nodes_circle@).take(j2 as int).contains(s as NodeIndex))
                        by {
                        if ptr_indices(nodes_circle@).take(j2 as int).contains(s as NodeIndex) {
                            let k = choose|k: int|
                                0 <= k < j2 && ptr_indices(nodes_circle@).take(j2 as int)[k]
                                    == s;
                            assert(ptr_indices(nodes_circle@).take(j2 as int + 1)[k]
                                == s as NodeIndex);
                        }
                    }
                }
            }
            j2 += 1;
        }
        // materialise the blossom itself
        let mut circle_indices: Vec<NodeIndex> = Vec::new();
        let mut k: usize = 0;
        while k < circle_len
            invariant
                k <= circle_len,
                circle_len == nodes_circle@.len(),
                circle_indices@ == ptr_indices(nodes_circle@).take(k as int),
            decreases circle_len - k,
        {
            circle_indices.push(nodes_circle[k].index);
            k += 1;
        }
        let mut touching_indices: Vec<(NodeIndex, NodeIndex)> = Vec::new();
        let use_default: bool = touching_children.len() == 0;
        let ghost touching_view = if touching_children@.len() == 0 {
            nodes_circle@.map_values(|p: DualNodePtr| (p, p))
        } else {
            touching_children@
        };
        let mut k2: usize = 0;
        while k2 < circle_len
            invariant
                k2 <= circle_len,
                circle_len == nodes_circle@.len(),
                use_default == (touching_children@.len() == 0),
                touching_view == if touching_children@.len() == 0 {
                    nodes_circle@.map_values(|p: DualNodePtr| (p, p))
                } else {
                    touching_children@
                },
                touching_view.len() == circle_len,
                touching_indices@ == ptr_pair_indices(touching_view).take(k2 as int),
            decreases circle_len - k2,
        {
            if use_default {
                let p = nodes_circle[k2];
                touching_indices.push((p.index, p.index));
            } else {
                let q = touching_children[k2];
                touching_indices.push((q.0.index, q.1.index));
            }
            k2 += 1;
        }
        proof {
            assert(circle_indices@ =~= ptr_indices(nodes_circle@));
            assert(touching_indices@ =~= ptr_pair_indices(touching_view));
            lemma_speed_sum_bound(pre.arena());
        }
        let blossom_node = DualNode {
            index: blossom_index,
            class: DualNodeClass::Blossom {
                nodes_circle: circle_indices,
                touching_children: touching_indices,
            },
            grow_state: DualNodeGrowState::Grow,
            parent_blossom: None,
            dual_variable_cache: DualVariableCache {
                value: 0,
                progress: self.dual_variable_global_progress,
            },
        };
        let ghost lined = *self;
        self.arena_append(blossom_node);
        self.sum_grow_speed = self.sum_grow_speed + 1;
        proof {
            lemma_create_blossom_post(
                pre,
                mid,
                lined,
                *self,
                nodes_circle@,
                touching_view,
                blossom_node,
                blossom_index,
            );
            assert(node_view(self.node_at(blossom_index as int)) =~= (DualNodeV {
                index: blossom_index,
                is_blossom: true,
                circle: ptr_indices(nodes_circle@),
                touching: if touching_children@.len() == 0 {
                    ptr_pair_indices(nodes_circle@.map_values(|p: DualNodePtr| (p, p)))
                } else {
                    ptr_pair_indices(touching_children@)
                },
                syndrome_vertex: 0,
                grow_state: DualNodeGrowState::Grow,
                parent_blossom: None,
                dual_variable_cache: DualVariableCache {
                    value: 0,
                    progress: pre.dual_variable_global_progress,
                },
            }));
        }
        let r = DualNodePtr { index: blossom_index };
        dual_module_impl.prepare_nodes_shrink(&*self, &nodes_circle);
        dual_module_impl.add_blossom(&*self, r);
        r
    }
}

/// A subtree link below `m` survives expanding a blossom above `m`: the
/// chain never climbs past `m`, so the detached parents lie off it.
proof fn lemma_in_subtree_detach(
    pre: DualModuleInterface,
    post: DualModuleInterface,
    x: int,
    m: int,
    bi: int,
)
    requires
        post.nodes_length == pre.nodes_length,
        forall|j: int|
            0 <= j < pre.nodes_length && j != bi ==> post.is_tracked(j) == #[trigger]
            pre.is_tracked(j),
        forall|j: int|
            0 <= j < pre.nodes_length && j != bi && pre.is_tracked(j) ==> ((
            #[trigger] pre.node_at(j)).parent_blossom matches Some(p) ==> p == bi
                || post.node_at(j).parent_blossom == Some(p)),
        forall|j: int|
            pre.is_tracked(j) ==> ((#[trigger] pre.node_at(j)).parent_blossom matches Some(p)
                ==> j < p < pre.nodes_length),
        m != bi,
        pre.is_tracked(bi),
        pre.node_at(bi).parent_blossom is None,
        pre.in_subtree(x, m),
    ensures
        post.in_subtree(x, m),
    decreases pre.nodes_length - x,
{
    if x != m {
        match pre.node_at(x).parent_blossom {
            Some(p) => {
                assert(pre.in_subtree(p as int, m));
                // the chain cannot pass through `bi`: it would end there
                assert(p != bi) by {
                    if p == bi {
                        assert(bi != m && pre.is_tracked(bi) && pre.node_at(bi).parent_blossom
                            is None);
                        assert(!pre.in_subtree(bi, m));
                    }
                }
                lemma_in_subtree_detach(pre, post, p as int, m, bi);
            },
            None => {},
        }
    }
}

/// After an expansion, every still-tracked node keeps its class and
/// vertex, and was tracked before.
proof fn lemma_expand_blossom_preserve(
    pre: DualModuleInterface,
    post: DualModuleInterface,
    bi: int,
)
    requires
        pre.inv(),
        pre.is_tracked(bi),
        pre.node_at(bi).class is Blossom,
        post.nodes_length == pre.nodes_length,
        post.nodes_length <= post.nodes@.len(),
        post.nodes@[bi] is None,
        forall|kk: int|
            0 <= kk < pre.node_at(bi).spec_circle().len() ==> {
                let m = (#[trigger] pre.node_at(bi).spec_circle()[kk]) as int;
                &&& post.nodes@[m] is Some
                &&& node_view(post.node_at(m)) == (DualNodeV {
                    grow_state: DualNodeGrowState::Grow,
                    parent_blossom: None,
                    dual_variable_cache: DualVariableCache {
                        value: pre.node_at(m).dual_variable_cache.value,
                        progress: pre.dual_variable_global_progress,
                    },
                    ..node_view(pre.node_at(m))
                })
            },
        forall|s: int|
            0 <= s < pre.nodes_length && s != bi && !pre.node_at(bi).spec_circle().contains(
                s as NodeIndex,
            ) ==> post.nodes@[s] == #[trigger] pre.nodes@[s],
    ensures
        forall|j: int|
            #[trigger] post.is_tracked(j) ==> pre.is_tracked(j) && ((post.node_at(j).class
                is SyndromeVertex) == (pre.node_at(j).class is SyndromeVertex)) && post.node_at(
                j,
            ).spec_syndrome_vertex() == pre.node_at(j).spec_syndrome_vertex(),
{
    let circle = pre.node_at(bi).spec_circle();
    assert forall|j: int| #[trigger] post.is_tracked(j) implies pre.is_tracked(j) && ((
    post.node_at(j).class is SyndromeVertex) == (pre.node_at(j).class is SyndromeVertex))
        && post.node_at(j).spec_syndrome_vertex() == pre.node_at(
        j,
    ).spec_syndrome_vertex() by {
        assert(j != bi);
        if circle.contains(j as NodeIndex) {
            let kk = choose|kk: int| 0 <= kk < circle.len() && circle[kk] == j as NodeIndex;
            assert(pre.blossom_inv(bi));
            assert(pre.is_tracked(j));
        } else {
            assert(post.nodes@[j] == pre.nodes@[j]);
        }
    }
}

/// The per-node invariant of every slot after `expand_blossom`: the freed
/// members become growing roots and everything else keeps its clauses.
#[verifier::rlimit(100)]
proof fn lemma_expand_blossom_node_inv(
    pre: DualModuleInterface,
    post: DualModuleInterface,
    bi: int,
)
    requires
        pre.inv(),
        pre.is_tracked(bi),
        pre.node_at(bi).class is Blossom,
        pre.node_at(bi).parent_blossom is None,
        post.nodes_length == pre.nodes_length,
        post.nodes_length <= post.nodes@.len(),
        post.dual_variable_global_progress == pre.dual_variable_global_progress,
        post.nodes@[bi] is None,
        forall|kk: int|
            0 <= kk < pre.node_at(bi).spec_circle().len() ==> {
                let m = (#[trigger] pre.node_at(bi).spec_circle()[kk]) as int;
                &&& post.nodes@[m] is Some
                &&& node_view(post.node_at(m)) == (DualNodeV {
                    grow_state: DualNodeGrowState::Grow,
                    parent_blossom: None,
                    dual_variable_cache: DualVariableCache {
                        value: pre.node_at(m).dual_variable_cache.value,
                        progress: pre.dual_variable_global_progress,
                    },
                    ..node_view(pre.node_at(m))
                })
            },
        forall|s: int|
            0 <= s < pre.nodes_length && s != bi && !pre.node_at(bi).spec_circle().contains(
                s as NodeIndex,
            ) ==> post.nodes@[s] == #[trigger] pre.nodes@[s],
    ensures
        forall|j: int| #[trigger] post.is_tracked(j) ==> post.node_inv(j),
        forall|s: int|
            0 <= s < pre.nodes_length && s != bi ==> #[trigger] post.is_tracked(s)
                == pre.is_tracked(s),
{
    let circle = pre.node_at(bi).spec_circle();
    lemma_expand_blossom_preserve(pre, post, bi);
    assert(pre.node_inv(bi));
    assert forall|s: int|
        0 <= s < pre.nodes_length && s != bi implies #[trigger] post.is_tracked(s)
            == pre.is_tracked(s) by {
        if circle.contains(s as NodeIndex) {
            let kk = choose|kk: int| 0 <= kk < circle.len() && circle[kk] == s as NodeIndex;
            assert(pre.is_tracked(s));
        } else {
            assert(post.nodes@[s] == pre.nodes@[s]);
        }
    }
    assert forall|j: int|
        pre.is_tracked(j) implies ((#[trigger] pre.node_at(j)).parent_blossom matches Some(p)
            ==> j < p < pre.nodes_length) by {
        assert(pre.node_inv(j));
    }
    assert forall|j: int| #[trigger] post.is_tracked(j) implies post.node_inv(j) by {
        assert(j != bi);
        assert(pre.is_tracked(j));
        assert(pre.node_inv(j));
        let n_pre = pre.node_at(j);
        if circle.contains(j as NodeIndex) {
            let kk = choose|kk: int| 0 <= kk < circle.len() && circle[kk] == j as NodeIndex;
            assert(node_view(post.node_at(j)) == (DualNodeV {
                grow_state: DualNodeGrowState::Grow,
                parent_blossom: None,
                dual_variable_cache: DualVariableCache {
                    value: pre.node_at(j).dual_variable_cache.value,
                    progress: pre.dual_variable_global_progress,
                },
                ..node_view(pre.node_at(j))
            }));
        } else {
            assert(post.nodes@[j] == pre.nodes@[j]);
            match n_pre.parent_blossom {
                Some(p) => {
                    assert(p != bi) by {
                        if p == bi {
                            assert(pre.node_at(bi).spec_circle().contains(n_pre.index));
                        }
                    }
                    if circle.contains(p as NodeIndex) {
                        let kk = choose|kk: int|
                            0 <= kk < circle.len() && circle[kk] == p as NodeIndex;
                        assert(node_view(post.node_at(p as int)) == (DualNodeV {
                            grow_state: DualNodeGrowState::Grow,
                            parent_blossom: None,
                            dual_variable_cache: DualVariableCache {
                                value: pre.node_at(p as int).dual_variable_cache.value,
                                progress: pre.dual_variable_global_progress,
                            },
                            ..node_view(pre.node_at(p as int))
                        }));
                    } else {
                        assert(post.nodes@[p as int] == pre.nodes@[p as int]);
                    }
                },
                None => {},
            }
        }
        if n_pre.class is Blossom {
            lemma_expand_blossom_inv_one(pre, post, bi, j);
        }
        assert(post.node_inv(j));
    }
}

/// The blossom clauses of one surviving blossom after an expansion.
#[verifier::rlimit(100)]
proof fn lemma_expand_blossom_inv_one(
    pre: DualModuleInterface,
    post: DualModuleInterface,
    bi: int,
    j: int,
)
    requires
        pre.inv(),
        pre.is_tracked(bi),
        pre.node_at(bi).class is Blossom,
        pre.node_at(bi).parent_blossom is None,
        post.nodes_length == pre.nodes_length,
        post.nodes_length <= post.nodes@.len(),
        post.nodes@[bi] is None,
        forall|kk: int|
            0 <= kk < pre.node_at(bi).spec_circle().len() ==> {
                let m = (#[trigger] pre.node_at(bi).spec_circle()[kk]) as int;
                &&& post.nodes@[m] is Some
                &&& node_view(post.node_at(m)) == (DualNodeV {
                    grow_state: DualNodeGrowState::Grow,
                    parent_blossom: None,
                    dual_variable_cache: DualVariableCache {
                        value: pre.node_at(m).dual_variable_cache.value,
                        progress: pre.dual_variable_global_progress,
                    },
                    ..node_view(pre.node_at(m))
                })
            },
        forall|s: int|
            0 <= s < pre.nodes_length && s != bi && !pre.node_at(bi).spec_circle().contains(
                s as NodeIndex,
            ) ==> post.nodes@[s] == #[trigger] pre.nodes@[s],
        forall|s: int|
            0 <= s < pre.nodes_length && s != bi ==> #[trigger] post.is_tracked(s)
                == pre.is_tracked(s),
        j != bi,
        pre.is_tracked(j),
        post.is_tracked(j),
        pre.node_at(j).class is Blossom,
        post.node_at(j).spec_circle() == pre.node_at(j).spec_circle(),
        post.node_at(j).spec_touching() == pre.node_at(j).spec_touching(),
        post.node_at(j).index == pre.node_at(j).index,
        (post.node_at(j).class is Blossom) == (pre.node_at(j).class is Blossom),
    ensures
        post.blossom_inv(j),
{
    let circle = pre.node_at(bi).spec_circle();
    assert(pre.node_inv(bi));
    assert(pre.node_inv(j));
    assert forall|jj: int|
        pre.is_tracked(jj) implies ((#[trigger] pre.node_at(jj)).parent_blossom matches Some(p)
            ==> jj < p < pre.nodes_length) by {
        assert(pre.node_inv(jj));
    }
    let n_pre = pre.node_at(j);
    assert forall|kk: int| 0 <= kk < n_pre.spec_circle().len() implies {
        let m = (#[trigger] n_pre.spec_circle()[kk]) as int;
        &&& post.is_tracked(m)
        &&& post.node_at(m).parent_blossom == pre.node_at(m).parent_blossom
        &&& (post.node_at(m).class is SyndromeVertex) == (pre.node_at(m).class
            is SyndromeVertex)
        &&& post.node_at(m).grow_state == pre.node_at(m).grow_state
        &&& if pre.node_at(m).class is SyndromeVertex {
            true
        } else {
            &&& post.in_subtree(n_pre.spec_touching()[kk].0 as int, m)
            &&& post.in_subtree(n_pre.spec_touching()[kk].1 as int, m)
        }
    } by {
        let m = n_pre.spec_circle()[kk] as int;
        assert(pre.is_tracked(m));
        assert(pre.node_at(m).parent_blossom == Some(n_pre.index));
        assert(m != bi);
        assert(!circle.contains(m as NodeIndex)) by {
            if circle.contains(m as NodeIndex) {
                assert(pre.node_at(m).parent_blossom == Some(pre.node_at(bi).index));
                assert(pre.node_at(bi).index == bi && n_pre.index == j);
            }
        }
        assert(post.nodes@[m] == pre.nodes@[m]);
        if !(pre.node_at(m).class is SyndromeVertex) {
            let t0 = n_pre.spec_touching()[kk].0 as int;
            let t1 = n_pre.spec_touching()[kk].1 as int;
            assert(pre.in_subtree(t0, m) && pre.in_subtree(t1, m));
            lemma_in_subtree_detach(pre, post, t0, m, bi);
            lemma_in_subtree_detach(pre, post, t1, m, bi);
        }
    }
    assert(post.blossom_inv(j));
}

impl DualModuleInterface {
    /// Resets one freed circle member: parent cleared, state Grow, cache
    /// refreshed; the member must be at Stay so its dual variable is its
    /// cached value.
    fn reset_member_raw(&mut self, i: usize)
        requires
            i < old(self).nodes_length,
            old(self).nodes_length <= old(self).nodes@.len(),
            old(self).nodes@[i as int] is Some,
            old(self).node_at(i as int).grow_state is Stay,
        ensures
            final (self).nodes_length == old(self).nodes_length,
            final (self).nodes@.len() == old(self).nodes@.len(),
            forall|j: int|
                0 <= j < old(self).nodes@.len() && j != i ==> final (self).nodes@[j] == old(self).nodes@[j],
            final (self).nodes@[i as int] is Some,
            node_view(final (self).node_at(i as int)) == (DualNodeV {
                grow_state: DualNodeGrowState::Grow,
                parent_blossom: None,
                dual_variable_cache: DualVariableCache {
                    value: old(self).node_at(i as int).dual_variable_cache.value,
                    progress: old(self).dual_variable_global_progress,
                },
                ..node_view(old(self).node_at(i as int))
            }),
            final (self).sum_grow_speed == old(self).sum_grow_speed,
            final (self).sum_dual_variables == old(self).sum_dual_variables,
            final (self).dual_variable_global_progress == old(self).dual_variable_global_progress,
    {
        let node_ref: &DualNode = self.nodes[i].as_ref().unwrap();
        let new_node = DualNode {
            index: node_ref.index,
            class: node_ref.class.duplicate(),
            grow_state: DualNodeGrowState::Grow,
            parent_blossom: None,
            dual_variable_cache: DualVariableCache {
                value: node_ref.dual_variable_cache.value,
                progress: self.dual_variable_global_progress,
            },
        };
        self.nodes.set(i, Some(new_node));
        proof {
            assert(node_view(self.node_at(i as int)) =~= (DualNodeV {
                grow_state: DualNodeGrowState::Grow,
                parent_blossom: None,
                dual_variable_cache: DualVariableCache {
                    value: old(self).node_at(i as int).dual_variable_cache.value,
                    progress: old(self).dual_variable_global_progress,
                },
                ..node_view(old(self).node_at(i as int))
            }));
        }
    }

    /// Expands a blossom whose dual variable has returned to zero: the
    /// backend first sees `remove_blossom`, then one `set_grow_state` per
    /// member just before that member is reset; the slot is vacated forever
    /// and every circle member becomes a growing root again.
    #[verifier::rlimit(100)]
    pub fn expand_blossom<D: DualModuleImpl>(
        &mut self,
        blossom_node_ptr: DualNodePtr,
        dual_module_impl: &mut D,
    )
        requires
            old(self).inv(),
            old(self).is_tracked(blossom_node_ptr.index as int),
            old(self).node_at(blossom_node_ptr.index as int).class is Blossom,
            old(self).node_at(blossom_node_ptr.index as int).parent_blossom is None,
            old(self).dual_of(blossom_node_ptr.index as int) == 0,
        ensures
            final (self).inv(),
            final (self).nodes_length == old(self).nodes_length,
            final (self).nodes@.len() == old(self).nodes@.len(),
            final (self).nodes@[blossom_node_ptr.index as int] is None,
            forall|kk: int|
                0 <= kk < old(self).node_at(blossom_node_ptr.index as int).spec_circle().len()
                    ==> {
                    let m = (#[trigger] old(self).node_at(
                        blossom_node_ptr.index as int,
                    ).spec_circle()[kk]) as int;
                    &&& final (self).is_tracked(m)
                    &&& node_view(final (self).node_at(m)) == (DualNodeV {
                        grow_state: DualNodeGrowState::Grow,
                        parent_blossom: None,
                        dual_variable_cache: DualVariableCache {
                            value: old(self).node_at(m).dual_variable_cache.value,
                            progress: old(self).dual_variable_global_progress,
                        },
                        ..node_view(old(self).node_at(m))
                    })
                },
            forall|s: int|
                0 <= s < old(self).nodes_length && s != blossom_node_ptr.index && !old(self).node_at(blossom_node_ptr.index as int).spec_circle().contains(s as NodeIndex)
                    ==> final (self).nodes@[s] == old(self).nodes@[s],
            final (self).sum_grow_speed == old(self).sum_grow_speed - gs_value(
                old(self).node_at(blossom_node_ptr.index as int).grow_state,
            ) + old(self).node_at(blossom_node_ptr.index as int).spec_circle().len(),
            final (self).sum_dual_variables == old(self).sum_dual_variables,
            final (self).dual_variable_global_progress == old(self).dual_variable_global_progress,
    {
        let bi: usize = blossom_node_ptr.index;
        dual_module_impl.remove_blossom(&*self, blossom_node_ptr);
        proof {
            assert(self.node_inv(bi as int));
            lemma_speed_sum_bound(self.arena());
        }
        let node_ref: &DualNode = self.nodes[bi].as_ref().unwrap();
        let b_speed: i64 = grow_speed_of(node_ref.grow_state);
        let circle_indices: Vec<NodeIndex> = match &node_ref.class {
            DualNodeClass::Blossom { nodes_circle, .. } => copy_index_vec(nodes_circle),
            DualNodeClass::SyndromeVertex { .. } => {
                proof {
                    assert(false);
                }
                Vec::new()
            },
        };
        let circle_len: usize = circle_indices.len();
        let ghost pre = *self;
        self.nodes.set(bi, None);
        let ghost vac = *self;
        proof {
            assert(vac.arena() =~= pre.arena().update(bi as int, None));
            lemma_arena_sum_update(pre.arena(), bi as int, None, f_speed());
            lemma_arena_sum_update(
                pre.arena(),
                bi as int,
                None,
                f_dual(pre.dual_variable_global_progress),
            );
        }
        let mut j: usize = 0;
        while j < circle_len
            invariant
                j <= circle_len,
                circle_len == circle_indices@.len(),
                circle_indices@ == pre.node_at(bi as int).spec_circle(),
                pre.inv(),
                pre.is_tracked(bi as int),
                pre.node_at(bi as int).class is Blossom,
                bi == pre.node_at(bi as int).index,
                vac.nodes_length == pre.nodes_length,
                vac.nodes@.len() == pre.nodes@.len(),
                self.nodes_length == pre.nodes_length,
                self.nodes@.len() == pre.nodes@.len(),
                self.sum_grow_speed == pre.sum_grow_speed,
                self.sum_dual_variables == pre.sum_dual_variables,
                self.dual_variable_global_progress == pre.dual_variable_global_progress,
                arena_sum(self.arena(), f_speed()) == arena_sum(vac.arena(), f_speed())
                    + j as int,
                arena_sum(self.arena(), f_dual(pre.dual_variable_global_progress)) == arena_sum(
                    vac.arena(),
                    f_dual(pre.dual_variable_global_progress),
                ),
                self.nodes@[bi as int] is None,
                forall|k: int|
                    0 <= k < j ==> {
                        let m = (#[trigger] circle_indices@[k]) as int;
                        &&& self.nodes@[m] is Some
                        &&& node_view(self.node_at(m)) == (DualNodeV {
                            grow_state: DualNodeGrowState::Grow,
                            parent_blossom: None,
                            dual_variable_cache: DualVariableCache {
                                value: pre.node_at(m).dual_variable_cache.value,
                                progress: pre.dual_variable_global_progress,
                            },
                            ..node_view(pre.node_at(m))
                        })
                    },
                forall|s: int|
                    0 <= s < pre.nodes@.len() && s != bi && !circle_indices@.take(
                        j as int,
                    ).contains(s as NodeIndex) ==> self.nodes@[s] == pre.nodes@[s],
            decreases circle_len - j,
        {
            let m: usize = circle_indices[j];
            proof {
                assert(pre.blossom_inv(bi as int));
                assert(pre.node_at(bi as int).spec_circle()[j as int] == circle_indices@[j as
                    int]);
                assert(pre.is_tracked(m as int));
                assert(m != bi);
                assert(!circle_indices@.take(j as int).contains(m as NodeIndex)) by {
                    if circle_indices@.take(j as int).contains(m as NodeIndex) {
                        let k = choose|k: int|
                            0 <= k < j && circle_indices@.take(j as int)[k] == m as NodeIndex;
                        assert(circle_indices@[k] == circle_indices@[j as int]);
                    }
                }
                assert(self.nodes@[m as int] == pre.nodes@[m as int]);
                assert(pre.node_at(m as int).grow_state is Stay);
            }
            dual_module_impl.set_grow_state(
                &*self,
                DualNodePtr { index: m },
                DualNodeGrowState::Grow,
            );
            let ghost before = *self;
            self.reset_member_raw(m);
            proof {
                assert(self.arena() =~= before.arena().update(
                    m as int,
                    self.nodes@[m as int],
                ));
                lemma_arena_sum_update(
                    before.arena(),
                    m as int,
                    self.nodes@[m as int],
                    f_speed(),
                );
                lemma_arena_sum_update(
                    before.arena(),
                    m as int,
                    self.nodes@[m as int],
                    f_dual(pre.dual_variable_global_progress),
                );
                assert forall|s: int|
                    0 <= s < pre.nodes@.len() && s != bi && !circle_indices@.take(
                        j as int + 1,
                    ).contains(s as NodeIndex) implies self.nodes@[s] == pre.nodes@[s] by {
                    assert(circle_indices@.take(j as int + 1)[j as int] == m as NodeIndex);
                    assert(!circle_indices@.take(j as int).contains(s as NodeIndex)) by {
                        if circle_indices@.take(j as int).contains(s as NodeIndex) {
                            let k = choose|k: int|
                                0 <= k < j && circle_indices@.take(j as int)[k]
                                    == s as NodeIndex;
                            assert(circle_indices@.take(j as int + 1)[k] == s as NodeIndex);
                        }
                    }
                }
            }
            j += 1;
        }
        proof {
            assert(circle_indices@.take(circle_len as int) =~= circle_indices@);
        }
        let new_speed: i128 = self.sum_grow_speed as i128 - b_speed as i128
            + circle_len as i128;
        proof {
            lemma_speed_sum_bound(self.arena());
        }
        self.sum_grow_speed = new_speed as i64;
        proof {
            lemma_expand_blossom_node_inv(pre, *self, bi as int);
            lemma_expand_blossom_preserve(pre, *self, bi as int);
            lemma_syndrome_unique_preserved(pre, *self);
            assert(self.sum_grow_speed == self.speed_sum());
            assert(self.sum_dual_variables == self.duals_sum());
            assert(self.inv());
        }
    }
}

/// A list of indices, each moved up by `bias`.
pub open spec fn shift_indices(s: Seq<NodeIndex>, bias: NodeIndex) -> Seq<NodeIndex> {
    s.map_values(|x: NodeIndex| (x + bias) as NodeIndex)
}

/// A list of index pairs, each moved up by `bias`.
pub open spec fn shift_pairs(s: Seq<(NodeIndex, NodeIndex)>, bias: NodeIndex) -> Seq<
    (NodeIndex, NodeIndex),
> {
    s.map_values(|x: (NodeIndex, NodeIndex)| (((x.0 + bias) as NodeIndex), ((x.1 + bias)
        as NodeIndex)))
}

/// The view of a node from `src` slot `k`, as it stands after being copied
/// into an interface at offset `bias` whose progress is `progress`.
pub open spec fn rebased_view(src: DualModuleInterface, k: int, bias: NodeIndex, progress: Weight) -> DualNodeV {
    let v = node_view(src.node_at(k));
    DualNodeV {
        index: (v.index + bias) as NodeIndex,
        is_blossom: v.is_blossom,
        circle: shift_indices(v.circle, bias),
        touching: shift_pairs(v.touching, bias),
        syndrome_vertex: v.syndrome_vertex,
        grow_state: v.grow_state,
        parent_blossom: match v.parent_blossom {
            Some(p) => Some(((p + bias) as NodeIndex)),
            None => None,
        },
        dual_variable_cache: DualVariableCache {
            value: src.dual_of(k) as i64,
            progress,
        },
    }
}

/// Whether no syndrome vertex of `a` also stands in `b`.
pub open spec fn syndromes_disjoint(a: DualModuleInterface, b: DualModuleInterface) -> bool {
    forall|i: int|
        a.is_tracked(i) && (#[trigger] a.node_at(i)).class is SyndromeVertex
            ==> !b.has_syndrome_vertex(a.node_at(i).spec_syndrome_vertex())
}

/// A subtree link of `src` reappears, shifted by `bias`, in an interface
/// holding a rebased copy of `src` at that offset.
proof fn lemma_in_subtree_shift(
    src: DualModuleInterface,
    post: DualModuleInterface,
    bias: NodeIndex,
    x: int,
    m: int,
)
    requires
        src.inv(),
        post.nodes_length >= bias + src.nodes_length,
        bias + src.nodes_length <= ARENA_CAP + ARENA_CAP,
        forall|k: int|
            0 <= k < src.nodes_length ==> (#[trigger] post.is_tracked(bias + k))
                == src.is_tracked(k),
        forall|k: int|
            src.is_tracked(k) ==> node_view(#[trigger] post.node_at(bias + k)) == rebased_view(
                src,
                k,
                bias,
                post.dual_variable_global_progress,
            ),
        0 <= x < src.nodes_length,
        0 <= m < src.nodes_length,
        src.in_subtree(x, m),
    ensures
        post.in_subtree(bias + x, bias + m),
    decreases src.nodes_length - x,
{
    if x != m {
        assert(src.node_inv(x));
        match src.node_at(x).parent_blossom {
            Some(p) => {
                assert(post.node_at(bias + x).parent_blossom == Some(
                    ((p + bias) as NodeIndex),
                ));
                lemma_in_subtree_shift(src, post, bias, p as int, m);
            },
            None => {},
        }
    }
}

/// The per-node invariant after one interface absorbs a rebased copy of
/// another.
#[verifier::rlimit(100)]
proof fn lemma_absorb_node_inv(
    pre: DualModuleInterface,
    src: DualModuleInterface,
    post: DualModuleInterface,
    bias: NodeIndex,
)
    requires
        pre.inv(),
        src.inv(),
        bias == pre.nodes_length,
        post.nodes_length == pre.nodes_length + src.nodes_length,
        post.nodes_length <= post.nodes@.len(),
        post.nodes@.len() <= ARENA_CAP,
        post.dual_variable_global_progress == pre.dual_variable_global_progress,
        forall|j: int| 0 <= j < pre.nodes_length ==> post.nodes@[j] == #[trigger] pre.nodes@[j],
        forall|k: int|
            0 <= k < src.nodes_length ==> (#[trigger] post.is_tracked(bias + k))
                == src.is_tracked(k),
        forall|k: int|
            src.is_tracked(k) ==> node_view(#[trigger] post.node_at(bias + k)) == rebased_view(
                src,
                k,
                bias,
                post.dual_variable_global_progress,
            ),
    ensures
        forall|j: int| #[trigger] post.is_tracked(j) ==> post.node_inv(j),
{
    assert forall|x: int, m: int|
        #![trigger post.in_subtree(x, m)]
        0 <= x < pre.nodes_length && pre.in_subtree(x, m) implies post.in_subtree(x, m) by {
        lemma_in_subtree_frame(pre, post, x, m);
    }
    assert forall|j: int| #[trigger] post.is_tracked(j) implies post.node_inv(j) by {
        if j < bias {
            assert(pre.is_tracked(j));
            assert(pre.node_inv(j));
            assert(post.node_inv(j));
        } else {
            let k = j - bias;
            assert(post.is_tracked(bias + k) == src.is_tracked(k));
            assert(src.is_tracked(k));
            assert(src.node_inv(k));
            let nv = node_view(post.node_at(j));
            assert(nv == rebased_view(src, k, bias, post.dual_variable_global_progress));
            let n_src = src.node_at(k);
            match n_src.parent_blossom {
                Some(p) => {
                    assert(nv.parent_blossom == Some(((p + bias) as NodeIndex)));
                    assert(post.is_tracked(bias + p) == src.is_tracked(p as int));
                    assert(node_view(post.node_at(bias + p)) == rebased_view(
                        src,
                        p as int,
                        bias,
                        post.dual_variable_global_progress,
                    ));
                    assert(src.node_at(p as int).spec_circle().contains(n_src.index));
                    let ci = choose|ci: int|
                        0 <= ci < src.node_at(p as int).spec_circle().len() && src.node_at(
                            p as int,
                        ).spec_circle()[ci] == n_src.index;
                    assert(post.node_at(bias + p).spec_circle()[ci] == ((n_src.index + bias)
                        as NodeIndex));
                    assert(post.node_at(bias + p).spec_circle().contains(
                        post.node_at(j).index,
                    ));
                },
                None => {},
            }
            if n_src.class is Blossom {
                assert(src.blossom_inv(k));
                let circle_src = n_src.spec_circle();
                let touching_src = n_src.spec_touching();
                let circle_post = post.node_at(j).spec_circle();
                let touching_post = post.node_at(j).spec_touching();
                assert(circle_post == shift_indices(circle_src, bias));
                assert(touching_post == shift_pairs(touching_src, bias));
                assert forall|c1: int, c2: int|
                    0 <= c1 < c2 < circle_post.len() implies #[trigger] circle_post[c1] != (
                #[trigger] circle_post[c2]) by {
                    assert(circle_src[c1] != circle_src[c2]);
                    assert(circle_src[c1] < src.nodes_length && circle_src[c2]
                        < src.nodes_length) by {
                        assert(src.is_tracked(circle_src[c1] as int));
                        assert(src.is_tracked(circle_src[c2] as int));
                    }
                }
                assert forall|ci: int| 0 <= ci < circle_post.len() implies {
                    let m = (#[trigger] circle_post[ci]) as int;
                    &&& m < j
                    &&& post.is_tracked(m)
                    &&& post.node_at(m).parent_blossom == Some(post.node_at(j).index)
                    &&& if post.node_at(m).class is SyndromeVertex {
                        touching_post[ci] == (circle_post[ci], circle_post[ci])
                    } else {
                        &&& post.is_tracked(touching_post[ci].0 as int)
                        &&& post.is_tracked(touching_post[ci].1 as int)
                        &&& post.in_subtree(touching_post[ci].0 as int, m)
                        &&& post.in_subtree(touching_post[ci].1 as int, m)
                    }
                } by {
                    let ms = circle_src[ci] as int;
                    assert(src.is_tracked(ms));
                    assert(circle_post[ci] == ((circle_src[ci] + bias) as NodeIndex));
                    let m = circle_post[ci] as int;
                    assert(m == bias + ms);
                    assert(post.is_tracked(m) == src.is_tracked(ms));
                    assert(node_view(post.node_at(m)) == rebased_view(
                        src,
                        ms,
                        bias,
                        post.dual_variable_global_progress,
                    ));
                    assert(src.node_at(ms).parent_blossom == Some(n_src.index));
                    if src.node_at(ms).class is SyndromeVertex {
                        assert(touching_src[ci] == (circle_src[ci], circle_src[ci]));
                        assert(touching_post[ci] == (circle_post[ci], circle_post[ci]));
                    } else {
                        let t0 = touching_src[ci].0 as int;
                        let t1 = touching_src[ci].1 as int;
                        assert(src.is_tracked(t0) && src.is_tracked(t1));
                        assert(0 <= t0 < src.nodes_length && 0 <= t1 < src.nodes_length);
                        assert(0 <= ms < src.nodes_length);
                        assert(src.in_subtree(t0, ms) && src.in_subtree(t1, ms));
                        lemma_in_subtree_shift(src, post, bias, t0, ms);
                        lemma_in_subtree_shift(src, post, bias, t1, ms);
                        assert(touching_post[ci].0 as int == bias + t0);
                        assert(touching_post[ci].1 as int == bias + t1);
                    }
                }
                assert(post.blossom_inv(j));
            }
            assert(post.node_inv(j));
        }
    }
}

impl DualModuleInterface {
    /// Whether some tracked syndrome node stands on `v`, decided by a scan.
    pub fn find_syndrome_vertex(&self, v: VertexIndex) -> (r: bool)
        requires
            self.nodes_length <= self.nodes@.len(),
        ensures
            r == self.has_syndrome_vertex(v),
    {
        let mut i: usize = 0;
        while i < self.nodes_length
            invariant
                i <= self.nodes_length,
                self.nodes_length <= self.nodes@.len(),
                forall|k: int|
                    0 <= k < i ==> !(self.is_tracked(k) && (#[trigger] self.node_at(k)).class
                        is SyndromeVertex && self.node_at(k).spec_syndrome_vertex() == v),
            decreases self.nodes_length - i,
        {
            match &self.nodes[i] {
                Some(node) => {
                    match &node.class {
                        DualNodeClass::SyndromeVertex { syndrome_index } => {
                            if *syndrome_index == v {
                                proof {
                                    assert(self.is_tracked(i as int) && self.node_at(
                                        i as int,
                                    ).class is SyndromeVertex && self.node_at(
                                        i as int,
                                    ).spec_syndrome_vertex() == v);
                                }
                                return true;
                            }
                        },
                        DualNodeClass::Blossom { .. } => {},
                    }
                },
                None => {},
            }
            i += 1;
        }
        proof {
            if self.has_syndrome_vertex(v) {
                let w = choose|w: int|
                    self.is_tracked(w) && (#[trigger] self.node_at(w)).class is SyndromeVertex
                        && self.node_at(w).spec_syndrome_vertex() == v;
                assert(0 <= w < self.nodes_length);
            }
        }
        false
    }

    /// Whether no syndrome vertex of `self` also stands in `other`, decided
    /// by a scan.
    fn check_syndromes_disjoint(&self, other: &Self) -> (r: bool)
        requires
            self.nodes_length <= self.nodes@.len(),
            other.nodes_length <= other.nodes@.len(),
        ensures
            r == syndromes_disjoint(*self, *other),
    {
        let mut i: usize = 0;
        while i < self.nodes_length
            invariant
                i <= self.nodes_length,
                self.nodes_length <= self.nodes@.len(),
                other.nodes_length <= other.nodes@.len(),
                forall|k: int|
                    0 <= k < i ==> (self.is_tracked(k) && (#[trigger] self.node_at(k)).class
                        is SyndromeVertex ==> !other.has_syndrome_vertex(
                        self.node_at(k).spec_syndrome_vertex(),
                    )),
            decreases self.nodes_length - i,
        {
            match &self.nodes[i] {
                Some(node) => {
                    match &node.class {
                        DualNodeClass::SyndromeVertex { syndrome_index } => {
                            if other.find_syndrome_vertex(*syndrome_index) {
                                proof {
                                    assert(self.is_tracked(i as int) && self.node_at(
                                        i as int,
                                    ).class is SyndromeVertex && other.has_syndrome_vertex(
                                        self.node_at(i as int).spec_syndrome_vertex(),
                                    ));
                                }
                                return false;
                            }
                        },
                        DualNodeClass::Blossom { .. } => {},
                    }
                },
                None => {},
            }
            i += 1;
        }
        true
    }

    /// Absorbs a rebased copy of `other`: every slot is appended with all
    /// its indices moved up by the current length, its lazy cache pinned to
    /// this interface's progress, and the totals accumulated.
    #[verifier::rlimit(100)]
    fn absorb_rebased(&mut self, other: &Self)
        requires
            old(self).inv(),
            other.inv(),
            old(self).nodes_length + other.nodes_length <= ARENA_CAP,
            syndromes_disjoint(*other, *old(self)),
            i64::MIN <= old(self).sum_dual_variables + other.sum_dual_variables <= i64::MAX,
        ensures
            final (self).inv(),
            final (self).nodes_length == old(self).nodes_length + other.nodes_length,
            final (self).sum_grow_speed == old(self).sum_grow_speed + other.sum_grow_speed,
            final (self).sum_dual_variables == old(self).sum_dual_variables
                + other.sum_dual_variables,
            final (self).dual_variable_global_progress == old(self).dual_variable_global_progress,
            forall|j: int|
                0 <= j < old(self).nodes_length ==> final (self).nodes@[j] == old(self).nodes@[j],
            forall|k: int|
                0 <= k < other.nodes_length ==> (#[trigger] final (self).is_tracked(
                    old(self).nodes_length + k,
                )) == other.is_tracked(k),
            forall|k: int|
                other.is_tracked(k) ==> node_view(
                    #[trigger] final (self).node_at(old(self).nodes_length + k),
                ) == rebased_view(
                    *other,
                    k,
                    old(self).nodes_length,
                    old(self).dual_variable_global_progress,
                ),
            forall|v: VertexIndex|
                #[trigger] final (self).has_syndrome_vertex(v) == (old(self).has_syndrome_vertex(v) || other.has_syndrome_vertex(v)),
    {
        let ghost pre = *self;
        let bias: usize = self.nodes_length;
        let mut k: usize = 0;
        while k < other.nodes_length
            invariant
                pre.inv(),
                other.inv(),
                k <= other.nodes_length,
                bias == pre.nodes_length,
                pre.nodes_length + other.nodes_length <= ARENA_CAP,
                self.nodes_length == pre.nodes_length + k,
                self.nodes_length <= self.nodes@.len(),
                self.nodes@.len() <= ARENA_CAP,
                self.sum_grow_speed == pre.sum_grow_speed,
                self.sum_dual_variables == pre.sum_dual_variables,
                self.dual_variable_global_progress == pre.dual_variable_global_progress,
                forall|j: int|
                    0 <= j < pre.nodes_length ==> self.nodes@[j] == #[trigger] pre.nodes@[j],
                forall|kk: int|
                    0 <= kk < k ==> (#[trigger] self.is_tracked(bias + kk)) == other.is_tracked(
                        kk,
                    ),
                forall|kk: int|
                    0 <= kk < k && other.is_tracked(kk) ==> node_view(
                        #[trigger] self.node_at(bias + kk),
                    ) == rebased_view(
                        *other,
                        kk,
                        bias,
                        pre.dual_variable_global_progress,
                    ),
                arena_sum(self.arena(), f_speed()) == arena_sum(pre.arena(), f_speed())
                    + arena_sum(other.arena().take(k as int), f_speed()),
                arena_sum(self.arena(), f_dual(pre.dual_variable_global_progress))
                    == arena_sum(pre.arena(), f_dual(pre.dual_variable_global_progress))
                    + arena_sum(
                    other.arena().take(k as int),
                    f_dual(other.dual_variable_global_progress),
                ),
            decreases other.nodes_length - k,
        {
            let ghost before = *self;
            let slot: Option<DualNode> = match &other.nodes[k] {
                Some(n) => {
                    proof {
                        assert(other.is_tracked(k as int));
                        assert(other.node_inv(k as int));
                    }
                    let dual: Weight = n.get_dual_variable(other);
                    let new_class: DualNodeClass = match &n.class {
                        DualNodeClass::Blossom { nodes_circle, touching_children } => {
                            proof {
                                assert(other.blossom_inv(k as int));
                                assert forall|q: int|
                                    0 <= q < nodes_circle@.len() implies
                                    #[trigger] nodes_circle@[q] <= ARENA_CAP by {
                                    assert(other.is_tracked(nodes_circle@[q] as int));
                                }
                                assert forall|q: int|
                                    0 <= q < touching_children@.len() implies (
                                #[trigger] touching_children@[q]).0 <= ARENA_CAP
                                    && touching_children@[q].1 <= ARENA_CAP by {
                                    let m = nodes_circle@[q] as int;
                                    assert(other.is_tracked(m));
                                    if other.node_at(m).class is SyndromeVertex {
                                        assert(touching_children@[q] == (nodes_circle@[q],
                                        nodes_circle@[q]));
                                    } else {
                                        assert(other.is_tracked(
                                            touching_children@[q].0 as int,
                                        ) && other.is_tracked(touching_children@[q].1 as int));
                                    }
                                }
                            }
                            let mut sc: Vec<NodeIndex> = Vec::new();
                            let mut ci: usize = 0;
                            while ci < nodes_circle.len()
                                invariant
                                    ci <= nodes_circle@.len(),
                                    sc@ == shift_indices(nodes_circle@, bias).take(ci as int),
                                    bias <= ARENA_CAP,
                                    forall|q: int|
                                        0 <= q < nodes_circle@.len()
                                            ==> #[trigger] nodes_circle@[q] <= ARENA_CAP,
                                decreases nodes_circle@.len() - ci,
                            {
                                sc.push(nodes_circle[ci] + bias);
                                ci += 1;
                            }
                            let mut st: Vec<(NodeIndex, NodeIndex)> = Vec::new();
                            let mut ti: usize = 0;
                            while ti < touching_children.len()
                                invariant
                                    ti <= touching_children@.len(),
                                    st@ == shift_pairs(touching_children@, bias).take(
                                        ti as int,
                                    ),
                                    bias <= ARENA_CAP,
                                    forall|q: int|
                                        0 <= q < touching_children@.len() ==> (
                                        #[trigger] touching_children@[q]).0 <= ARENA_CAP
                                            && touching_children@[q].1 <= ARENA_CAP,
                                decreases touching_children@.len() - ti,
                            {
                                let pair = touching_children[ti];
                                st.push((pair.0 + bias, pair.1 + bias));
                                ti += 1;
                            }
                            proof {
                                assert(sc@ =~= shift_indices(nodes_circle@, bias));
                                assert(st@ =~= shift_pairs(touching_children@, bias));
                            }
                            DualNodeClass::Blossom {
                                nodes_circle: sc,
                                touching_children: st,
                            }
                        },
                        DualNodeClass::SyndromeVertex { syndrome_index } => {
                            DualNodeClass::SyndromeVertex { syndrome_index: *syndrome_index }
                        },
                    };
                    let new_parent: Option<NodeIndex> = match &n.parent_blossom {
                        Some(p) => Some(*p + bias),
                        None => None,
                    };
                    Some(
                        DualNode {
                            index: k + bias,
                            class: new_class,
                            grow_state: n.grow_state,
                            parent_blossom: new_parent,
                            dual_variable_cache: DualVariableCache {
                                value: dual,
                                progress: self.dual_variable_global_progress,
                            },
                        },
                    )
                },
                None => None,
            };
            self.arena_append_slot(slot);
            proof {
                assert(self.nodes@[bias + k as int] == slot);
                assert forall|kk: int| 0 <= kk < k implies (#[trigger] self.is_tracked(
                    bias + kk,
                )) == before.is_tracked(bias + kk) by {
                    assert(self.nodes@[bias + kk] == before.nodes@[bias + kk]);
                }
                assert forall|kk: int| 0 <= kk < k implies #[trigger] self.node_at(bias + kk)
                    == before.node_at(bias + kk) by {
                    assert(self.nodes@[bias + kk] == before.nodes@[bias + kk]);
                }
                assert(self.is_tracked(bias + k as int) == other.is_tracked(k as int));
                lemma_arena_sum_push(before.arena(), slot, f_speed());
                lemma_arena_sum_push(
                    before.arena(),
                    slot,
                    f_dual(pre.dual_variable_global_progress),
                );
                assert(other.arena().take(k as int + 1).drop_last() =~= other.arena().take(
                    k as int,
                ));
                lemma_arena_sum_push(
                    other.arena().take(k as int),
                    other.arena()[k as int],
                    f_speed(),
                );
                assert(other.arena().take(k as int).push(other.arena()[k as int])
                    =~= other.arena().take(k as int + 1));
                lemma_arena_sum_push(
                    other.arena().take(k as int),
                    other.arena()[k as int],
                    f_dual(other.dual_variable_global_progress),
                );
                if other.is_tracked(k as int) {
                    assert(node_view(self.node_at(bias + k as int)) =~= rebased_view(
                        *other,
                        k as int,
                        bias,
                        pre.dual_variable_global_progress,
                    ));
                }
            }
            k += 1;
        }
        let sum: i128 = self.sum_dual_variables as i128 + other.sum_dual_variables as i128;
        let ghost filled = *self;
        proof {
            lemma_speed_sum_bound(pre.arena());
            lemma_speed_sum_bound(other.arena());
            assert(other.arena().take(other.nodes_length as int) =~= other.arena());
        }
        self.sum_dual_variables = sum as i64;
        self.sum_grow_speed = self.sum_grow_speed + other.sum_grow_speed;
        proof {
            assert(self.nodes@ == filled.nodes@ && self.nodes_length == filled.nodes_length);
            assert forall|kk2: int| 0 <= kk2 < other.nodes_length implies (
            #[trigger] self.is_tracked(bias + kk2)) == other.is_tracked(kk2) by {
                assert(filled.is_tracked(bias + kk2) == other.is_tracked(kk2));
            }
            assert forall|kk2: int| other.is_tracked(kk2) implies node_view(
                #[trigger] self.node_at(bias + kk2),
            ) == rebased_view(
                *other,
                kk2,
                bias,
                self.dual_variable_global_progress,
            ) by {
                assert(0 <= kk2 < other.nodes_length);
                assert(node_view(filled.node_at(bias + kk2)) == rebased_view(
                    *other,
                    kk2,
                    bias,
                    pre.dual_variable_global_progress,
                ));
                assert(self.node_at(bias + kk2) == filled.node_at(bias + kk2));
            }
            assert(self.sum_grow_speed == self.speed_sum());
            assert(self.sum_dual_variables == self.duals_sum());
            lemma_absorb_node_inv(pre, *other, *self, bias);
            assert forall|v: VertexIndex|
                #[trigger] self.has_syndrome_vertex(v) == (pre.has_syndrome_vertex(v)
                    || other.has_syndrome_vertex(v)) by {
                if self.has_syndrome_vertex(v) {
                    let w = choose|w: int|
                        self.is_tracked(w) && (#[trigger] self.node_at(w)).class
                            is SyndromeVertex && self.node_at(w).spec_syndrome_vertex() == v;
                    if w < bias {
                        assert(pre.is_tracked(w) && pre.node_at(w).class is SyndromeVertex
                            && pre.node_at(w).spec_syndrome_vertex() == v);
                        assert(pre.has_syndrome_vertex(v));
                    } else {
                        let kk = w - bias;
                        assert(self.is_tracked(bias + kk));
                        assert(other.is_tracked(kk));
                        assert(node_view(self.node_at(w)) == rebased_view(
                            *other,
                            kk,
                            bias,
                            pre.dual_variable_global_progress,
                        ));
                        assert(other.node_at(kk).class is SyndromeVertex && other.node_at(
                            kk,
                        ).spec_syndrome_vertex() == v);
                        assert(other.has_syndrome_vertex(v));
                    }
                }
                if pre.has_syndrome_vertex(v) {
                    let w = choose|w: int|
                        pre.is_tracked(w) && (#[trigger] pre.node_at(w)).class
                            is SyndromeVertex && pre.node_at(w).spec_syndrome_vertex() == v;
                    assert(self.nodes@[w] == pre.nodes@[w]);
                    assert(self.is_tracked(w) && self.node_at(w).class is SyndromeVertex
                        && self.node_at(w).spec_syndrome_vertex() == v);
                    assert(self.has_syndrome_vertex(v));
                }
                if other.has_syndrome_vertex(v) {
                    let w = choose|w: int|
                        other.is_tracked(w) && (#[trigger] other.node_at(w)).class
                            is SyndromeVertex && other.node_at(w).spec_syndrome_vertex() == v;
                    assert(self.is_tracked(bias + w) == other.is_tracked(w));
                    assert(node_view(self.node_at(bias + w)) == rebased_view(
                        *other,
                        w,
                        bias,
                        pre.dual_variable_global_progress,
                    ));
                    assert(self.node_at(bias + w).class is SyndromeVertex && self.node_at(
                        bias + w,
                    ).spec_syndrome_vertex() == v);
                    assert(self.has_syndrome_vertex(v));
                }
            }
            assert forall|i1: int, i2: int|
                #![trigger self.node_at(i1).spec_syndrome_vertex(), self.node_at(i2).spec_syndrome_vertex()]
                self.is_tracked(i1) && self.is_tracked(i2) && i1 != i2 && self.node_at(
                    i1,
                ).class is SyndromeVertex && self.node_at(i2).class is SyndromeVertex implies
                self.node_at(i1).spec_syndrome_vertex() != self.node_at(
                i2,
            ).spec_syndrome_vertex() by {
                let lo = if i1 < i2 { i1 } else { i2 };
                let hi = if i1 < i2 { i2 } else { i1 };
                if hi < bias {
                    assert(self.nodes@[lo] == pre.nodes@[lo] && self.nodes@[hi]
                        == pre.nodes@[hi]);
                    assert(pre.node_at(lo).spec_syndrome_vertex() != pre.node_at(
                        hi,
                    ).spec_syndrome_vertex());
                } else if lo >= bias {
                    assert(self.is_tracked(bias + (lo - bias)) == other.is_tracked(lo - bias));
                    assert(self.is_tracked(bias + (hi - bias)) == other.is_tracked(hi - bias));
                    assert(node_view(self.node_at(bias + (lo - bias))) == rebased_view(
                        *other,
                        lo - bias,
                        bias,
                        pre.dual_variable_global_progress,
                    ));
                    assert(node_view(self.node_at(bias + (hi - bias))) == rebased_view(
                        *other,
                        hi - bias,
                        bias,
                        pre.dual_variable_global_progress,
                    ));
                    assert(other.node_at(lo - bias).spec_syndrome_vertex() != other.node_at(
                        hi - bias,
                    ).spec_syndrome_vertex());
                } else {
                    assert(self.nodes@[lo] == pre.nodes@[lo]);
                    assert(self.is_tracked(bias + (hi - bias)) == other.is_tracked(hi - bias));
                    assert(node_view(self.node_at(bias + (hi - bias))) == rebased_view(
                        *other,
                        hi - bias,
                        bias,
                        pre.dual_variable_global_progress,
                    ));
                    assert(other.node_at(hi - bias).class is SyndromeVertex);
                    if self.node_at(lo).spec_syndrome_vertex() == self.node_at(
                        hi,
                    ).spec_syndrome_vertex() {
                        assert(pre.has_syndrome_vertex(
                            other.node_at(hi - bias).spec_syndrome_vertex(),
                        )) by {
                            assert(pre.is_tracked(lo) && pre.node_at(lo).class
                                is SyndromeVertex);
                        }
                    }
                }
            }
            assert(self.inv());
        }
    }

    /// Appends one slot as it stands, live or empty.
    fn arena_append_slot(&mut self, slot: Option<DualNode>)
        requires
            old(self).nodes_length <= old(self).nodes@.len(),
            old(self).nodes@.len() <= ARENA_CAP,
            old(self).nodes_length < ARENA_CAP,
        ensures
            final (self).nodes_length == old(self).nodes_length + 1,
            final (self).nodes_length <= final (self).nodes@.len(),
            final (self).nodes@.len() <= ARENA_CAP,
            final (self).arena() == old(self).arena().push(slot),
            forall|j: int|
                0 <= j < old(self).nodes_length ==> final (self).nodes@[j] == old(self).nodes@[j],
            final (self).nodes@[old(self).nodes_length as int] == slot,
            final (self).sum_grow_speed == old(self).sum_grow_speed,
            final (self).sum_dual_variables == old(self).sum_dual_variables,
            final (self).dual_variable_global_progress == old(self).dual_variable_global_progress,
    {
        let ghost pre = *self;
        let node_idx: usize = self.nodes_length;
        if self.nodes.len() < node_idx + 1 {
            self.nodes.push(None);
        }
        self.nodes.set(node_idx, slot);
        self.nodes_length = node_idx + 1;
        proof {
            assert(self.arena() =~= pre.arena().push(self.nodes@[node_idx as int]));
        }
    }

    /// Fuses two interfaces into this one by appending rebased copies of
    /// both, accumulating their totals.  Fails, leaving everything as it
    /// was, when a syndrome vertex would appear twice, the arena would
    /// outgrow its cap, or a total would overflow.
    pub fn fuse(&mut self, left: &Self, right: &Self) -> (r: Result<(), BlossomError>)
        requires
            old(self).inv(),
            left.inv(),
            right.inv(),
        ensures
            final (self).inv(),
            r is Err ==> *final (self) == *old(self),
            r is Ok ==> {
                &&& final (self).nodes_length == old(self).nodes_length + left.nodes_length
                    + right.nodes_length
                &&& final (self).sum_grow_speed == old(self).sum_grow_speed
                    + left.sum_grow_speed + right.sum_grow_speed
                &&& final (self).sum_dual_variables == old(self).sum_dual_variables
                    + left.sum_dual_variables + right.sum_dual_variables
                &&& final (self).dual_variable_global_progress == old(self).dual_variable_global_progress
                &&& forall|j: int|
                    0 <= j < old(self).nodes_length ==> final (self).nodes@[j] == #[trigger]
                    old(self).nodes@[j]
                &&& forall|k: int|
                    0 <= k < left.nodes_length ==> (#[trigger] final (self).is_tracked(
                        old(self).nodes_length + k,
                    )) == left.is_tracked(k)
                &&& forall|k: int|
                    left.is_tracked(k) ==> node_view(
                        #[trigger] final (self).node_at(old(self).nodes_length + k),
                    ) == rebased_view(
                        *left,
                        k,
                        old(self).nodes_length,
                        old(self).dual_variable_global_progress,
                    )
                &&& forall|k: int|
                    0 <= k < right.nodes_length ==> (#[trigger] final (self).is_tracked(
                        old(self).nodes_length + left.nodes_length + k,
                    )) == right.is_tracked(k)
                &&& forall|k: int|
                    right.is_tracked(k) ==> node_view(
                        #[trigger] final (self).node_at(
                            old(self).nodes_length + left.nodes_length + k,
                        ),
                    ) == rebased_view(
                        *right,
                        k,
                        (old(self).nodes_length + left.nodes_length) as NodeIndex,
                        old(self).dual_variable_global_progress,
                    )
                &&& forall|v: VertexIndex|
                    #[trigger] final (self).has_syndrome_vertex(v) == (old(
                        self,
                    ).has_syndrome_vertex(v) || left.has_syndrome_vertex(v)
                        || right.has_syndrome_vertex(v))
            },
            r is Ok <==> {
                &&& old(self).nodes_length + left.nodes_length + right.nodes_length
                    <= ARENA_CAP
                &&& syndromes_disjoint(*left, *old(self))
                &&& syndromes_disjoint(*right, *old(self))
                &&& syndromes_disjoint(*right, *left)
                &&& i64::MIN <= old(self).sum_dual_variables + left.sum_dual_variables
                    <= i64::MAX
                &&& i64::MIN <= old(self).sum_dual_variables + left.sum_dual_variables
                    + right.sum_dual_variables <= i64::MAX
            },
    {
        proof {
            assert(self.nodes_length <= ARENA_CAP && left.nodes_length <= ARENA_CAP
                && right.nodes_length <= ARENA_CAP);
        }
        if self.nodes_length + left.nodes_length + right.nodes_length > ARENA_CAP {
            return Err(BlossomError::ArenaOverflow);
        }
        if !left.check_syndromes_disjoint(self) {
            return Err(BlossomError::DuplicateSyndrome(0));
        }
        if !right.check_syndromes_disjoint(self) {
            return Err(BlossomError::DuplicateSyndrome(0));
        }
        if !right.check_syndromes_disjoint(left) {
            return Err(BlossomError::DuplicateSyndrome(0));
        }
        let s1: i128 = self.sum_dual_variables as i128 + left.sum_dual_variables as i128;
        let s2: i128 = s1 + right.sum_dual_variables as i128;
        if s1 < i64::MIN as i128 || s1 > i64::MAX as i128 || s2 < i64::MIN as i128 || s2
            > i64::MAX as i128 {
            return Err(BlossomError::WeightOverflow);
        }
        let ghost entry = *self;
        self.absorb_rebased(left);
        proof {
            assert forall|i: int|
                right.is_tracked(i) && (#[trigger] right.node_at(i)).class is SyndromeVertex
                    implies !self.has_syndrome_vertex(
                right.node_at(i).spec_syndrome_vertex(),
            ) by {
                let v = right.node_at(i).spec_syndrome_vertex();
                assert(!entry.has_syndrome_vertex(v) && !left.has_syndrome_vertex(v));
            }
        }
        let ghost after_left = *self;
        self.absorb_rebased(right);
        proof {
            let bias_l = entry.nodes_length as int;
            let bias_r = bias_l + left.nodes_length as int;
            assert forall|j: int| 0 <= j < entry.nodes_length implies self.nodes@[j]
                == #[trigger] entry.nodes@[j] by {
                assert(self.nodes@[j] == after_left.nodes@[j]);
            }
            assert forall|k: int|
                0 <= k < left.nodes_length implies (#[trigger] self.is_tracked(bias_l + k))
                == left.is_tracked(k) by {
                assert(self.nodes@[bias_l + k] == after_left.nodes@[bias_l + k]);
                assert(after_left.is_tracked(bias_l + k) == left.is_tracked(k));
            }
            assert forall|k: int| left.is_tracked(k) implies node_view(
                #[trigger] self.node_at(bias_l + k),
            ) == rebased_view(
                *left,
                k,
                entry.nodes_length,
                entry.dual_variable_global_progress,
            ) by {
                assert(0 <= k < left.nodes_length);
                assert(self.nodes@[bias_l + k] == after_left.nodes@[bias_l + k]);
                assert(node_view(after_left.node_at(bias_l + k)) == rebased_view(
                    *left,
                    k,
                    entry.nodes_length,
                    entry.dual_variable_global_progress,
                ));
            }
            assert forall|v: VertexIndex| #[trigger] self.has_syndrome_vertex(v) == (
            entry.has_syndrome_vertex(v) || left.has_syndrome_vertex(v)
                || right.has_syndrome_vertex(v)) by {
                assert(self.has_syndrome_vertex(v) == (after_left.has_syndrome_vertex(v)
                    || right.has_syndrome_vertex(v)));
                assert(after_left.has_syndrome_vertex(v) == (entry.has_syndrome_vertex(v)
                    || left.has_syndrome_vertex(v)));
            }
        }
        Ok(())
    }
}

impl DualModuleInterface {
    /// The outermost enclosing blossom of a node, or the node itself.
    pub open spec fn spec_rep_vertex(self, i: int) -> VertexIndex
        decreases i,
    {
        if self.is_tracked(i) {
            match self.node_at(i).class {
                DualNodeClass::SyndromeVertex { syndrome_index } => syndrome_index,
                DualNodeClass::Blossom { .. } => {
                    let circle = self.node_at(i).spec_circle();
                    if circle.len() > 0 && 0 <= circle[0] < i {
                        self.spec_rep_vertex(circle[0] as int)
                    } else {
                        0
                    }
                },
            }
        } else {
            0
        }
    }

    /// All syndrome vertices at or beneath slot `i`, in first-child order.
    pub open spec fn spec_all_vertices(self, i: int) -> Seq<VertexIndex>
        decreases i, self.node_at(i).spec_circle().len() + 1,
    {
        if self.is_tracked(i) {
            match self.node_at(i).class {
                DualNodeClass::SyndromeVertex { syndrome_index } => seq![syndrome_index],
                DualNodeClass::Blossom { .. } => self.spec_circle_vertices(
                    i,
                    self.node_at(i).spec_circle().len() as int,
                ),
            }
        } else {
            Seq::empty()
        }
    }

    /// The syndrome vertices beneath the first `k` members of the blossom
    /// in slot `i`.
    pub open spec fn spec_circle_vertices(self, i: int, k: int) -> Seq<VertexIndex>
        decreases i, k,
    {
        if self.is_tracked(i) && 0 < k <= self.node_at(i).spec_circle().len() {
            let m = self.node_at(i).spec_circle()[k - 1] as int;
            self.spec_circle_vertices(i, k - 1) + (if 0 <= m < i {
                self.spec_all_vertices(m)
            } else {
                Seq::empty()
            })
        } else {
            Seq::empty()
        }
    }
}

impl DualNodePtr {
    /// The outermost enclosing blossom, reached by walking the parent
    /// chain; the node itself when it has none.
    pub fn get_ancestor_blossom(&self, interface: &DualModuleInterface) -> (r: DualNodePtr)
        requires
            interface.inv(),
            interface.is_tracked(self.index as int),
        ensures
            r.index as int == interface.spec_ancestor_of(self.index as int),
            interface.is_tracked(r.index as int),
            interface.node_at(r.index as int).parent_blossom is None,
        decreases interface.nodes_length - self.index,
    {
        proof {
            assert(interface.node_inv(self.index as int));
        }
        match &self.nodes_parent(interface) {
            Some(p) => {
                let parent = DualNodePtr { index: *p };
                parent.get_ancestor_blossom(interface)
            },
            None => DualNodePtr { index: self.index },
        }
    }

    /// The parent of this node, read from the interface.
    fn nodes_parent(&self, interface: &DualModuleInterface) -> (r: Option<NodeIndex>)
        requires
            interface.is_tracked(self.index as int),
        ensures
            r == interface.node_at(self.index as int).parent_blossom,
    {
        match &interface.nodes[self.index] {
            Some(node) => node.parent_blossom,
            None => None,
        }
    }

    /// The enclosing blossom one below the outermost one; the node must
    /// have a parent.
    pub fn get_secondary_ancestor_blossom(&self, interface: &DualModuleInterface) -> (r:
        DualNodePtr)
        requires
            interface.inv(),
            interface.is_tracked(self.index as int),
            interface.node_at(self.index as int).parent_blossom is Some,
        ensures
            interface.is_tracked(r.index as int),
            interface.in_subtree(self.index as int, r.index as int),
            interface.node_at(r.index as int).parent_blossom matches Some(p) && p as int
                == interface.spec_ancestor_of(self.index as int) && interface.node_at(
                p as int,
            ).parent_blossom is None,
            (interface.node_at(self.index as int).parent_blossom matches Some(p0)
                && interface.node_at(p0 as int).parent_blossom is None) ==> r == *self,
        decreases interface.nodes_length - self.index,
    {
        proof {
            assert(interface.node_inv(self.index as int));
        }
        let parent_index: NodeIndex = match &interface.nodes[self.index] {
            Some(node) => match node.parent_blossom {
                Some(p) => p,
                None => 0,
            },
            None => 0,
        };
        proof {
            assert(interface.node_inv(parent_index as int));
        }
        let parent = DualNodePtr { index: parent_index };
        match &parent.nodes_parent(interface) {
            Some(_) => {
                let r = parent.get_secondary_ancestor_blossom(interface);
                proof {
                    assert(interface.in_subtree(self.index as int, r.index as int));
                    assert(interface.spec_ancestor_of(self.index as int)
                        == interface.spec_ancestor_of(parent_index as int));
                }
                r
            },
            None => {
                proof {
                    assert(interface.spec_ancestor_of(parent_index as int)
                        == parent_index as int);
                    assert(interface.spec_ancestor_of(self.index as int)
                        == interface.spec_ancestor_of(parent_index as int));
                    assert(interface.in_subtree(self.index as int, self.index as int));
                }
                DualNodePtr { index: self.index }
            },
        }
    }

    /// All syndrome vertices beneath this node, flattened in first-child
    /// order.
    pub fn get_all_vertices(&self, interface: &DualModuleInterface) -> (r: Vec<VertexIndex>)
        requires
            interface.inv(),
            interface.is_tracked(self.index as int),
        ensures
            r@ == interface.spec_all_vertices(self.index as int),
    {
        let mut pending_vec: Vec<VertexIndex> = Vec::new();
        self.collect_vertices(interface, &mut pending_vec);
        proof {
            assert(pending_vec@ =~= Seq::<VertexIndex>::empty() + interface.spec_all_vertices(
                self.index as int,
            ));
        }
        pending_vec
    }

    /// Appends this node's syndrome vertices to `pending_vec`.
    fn collect_vertices(&self, interface: &DualModuleInterface, pending_vec: &mut Vec<
        VertexIndex,
    >)
        requires
            interface.inv(),
            interface.is_tracked(self.index as int),
        ensures
            final (pending_vec)@ == old(pending_vec)@ + interface.spec_all_vertices(
                self.index as int,
            ),
        decreases self.index,
    {
        proof {
            assert(interface.node_inv(self.index as int));
        }
        let i: usize = self.index;
        match &interface.nodes[i] {
            Some(node) => {
                match &node.class {
                    DualNodeClass::SyndromeVertex { syndrome_index } => {
                        pending_vec.push(*syndrome_index);
                        proof {
                            assert(pending_vec@ =~= old(pending_vec)@
                                + interface.spec_all_vertices(i as int));
                        }
                    },
                    DualNodeClass::Blossom { nodes_circle, .. } => {
                        let mut k: usize = 0;
                        while k < nodes_circle.len()
                            invariant
                                interface.inv(),
                                i == self.index,
                                interface.is_tracked(i as int),
                                interface.node_at(i as int).spec_circle() == nodes_circle@,
                                interface.blossom_inv(i as int),
                                k <= nodes_circle@.len(),
                                pending_vec@ == old(pending_vec)@
                                    + interface.spec_circle_vertices(i as int, k as int),
                            decreases nodes_circle@.len() - k,
                        {
                            let member = DualNodePtr { index: nodes_circle[k] };
                            proof {
                                assert(interface.is_tracked(nodes_circle@[k as int] as int));
                                assert(nodes_circle@[k as int] < i);
                                assert(member.index < self.index);
                            }
                            member.collect_vertices(interface, pending_vec);
                            proof {
                                assert(pending_vec@ =~= old(pending_vec)@
                                    + interface.spec_circle_vertices(i as int, k as int + 1));
                            }
                            k += 1;
                        }
                        proof {
                            assert(interface.spec_all_vertices(i as int)
                                == interface.spec_circle_vertices(
                                i as int,
                                nodes_circle@.len() as int,
                            ));
                        }
                    },
                }
            },
            None => {
                proof {
                    assert(false);
                }
            },
        }
    }

    /// The first syndrome vertex found by descending the first member of
    /// each blossom.
    pub fn get_representative_vertex(&self, interface: &DualModuleInterface) -> (r: VertexIndex)
        requires
            interface.inv(),
            interface.is_tracked(self.index as int),
        ensures
            r == interface.spec_rep_vertex(self.index as int),
        decreases self.index,
    {
        proof {
            assert(interface.node_inv(self.index as int));
        }
        match &interface.nodes[self.index] {
            Some(node) => {
                match &node.class {
                    DualNodeClass::SyndromeVertex { syndrome_index } => *syndrome_index,
                    DualNodeClass::Blossom { nodes_circle, .. } => {
                        proof {
                            assert(interface.blossom_inv(self.index as int));
                            assert(interface.is_tracked(nodes_circle@[0] as int));
                        }
                        let member = DualNodePtr { index: nodes_circle[0] };
                        member.get_representative_vertex(interface)
                    },
                }
            },
            None => {
                proof {
                    assert(false);
                }
                0
            },
        }
    }
}

/// Priority rank of a conflict: higher tuples pop first.  Conflicting
/// outranks TouchingVirtual outranks BlossomNeedExpand outranks
/// VertexShrinkStop; within a tag the involved node identities decide,
/// reversed for the top two tags so that smaller identities pop first.
pub open spec fn mul_rank(m: MaxUpdateLength) -> (int, int, int) {
    match m {
        MaxUpdateLength::NonZeroGrow(_) => (0int, 0int, 0int),
        MaxUpdateLength::VertexShrinkStop((a, _)) => (1int, a.index as int, 0int),
        MaxUpdateLength::BlossomNeedExpand(a) => (2int, a.index as int, 0int),
        MaxUpdateLength::TouchingVirtual((a, _), (v, _)) => (
            3int,
            -(a.index as int),
            -(v as int),
        ),
        MaxUpdateLength::Conflicting((a, _), (b, _)) => (
            4int,
            -(a.index as int),
            -(b.index as int),
        ),
    }
}

/// The total priority preorder on conflicts.
pub open spec fn mul_le(x: MaxUpdateLength, y: MaxUpdateLength) -> bool {
    let (t1, a1, b1) = mul_rank(x);
    let (t2, a2, b2) = mul_rank(y);
    t1 < t2 || (t1 == t2 && (a1 < a2 || (a1 == a2 && b1 <= b2)))
}

/// A heap kept as a list in ascending priority order, holding no
/// NonZeroGrow entries.
pub open spec fn heap_wf(s: Seq<MaxUpdateLength>) -> bool {
    &&& forall|i: int, j: int| 0 <= i < j < s.len() ==> mul_le(#[trigger] s[i], #[trigger] s[j])
    &&& forall|i: int| 0 <= i < s.len() ==> !((#[trigger] s[i]) is NonZeroGrow)
}

/// A pending map kept as a list in strictly ascending order of its vertex
/// keys, each entry holding a VertexShrinkStop.
pub open spec fn pending_wf(p: Seq<(VertexIndex, MaxUpdateLength)>) -> bool {
    &&& forall|i: int, j: int|
        0 <= i < j < p.len() ==> (#[trigger] p[i]).0 < (#[trigger] p[j]).0
    &&& forall|i: int| 0 <= i < p.len() ==> (#[trigger] p[i]).1 is VertexShrinkStop
}

/// Whether some entry carries key `v`.
pub open spec fn phas(p: Seq<(VertexIndex, MaxUpdateLength)>, v: VertexIndex) -> bool {
    exists|j: int| 0 <= j < p.len() && (#[trigger] p[j]).0 == v
}

/// The position of the entry carrying key `v`.
pub open spec fn ppos(p: Seq<(VertexIndex, MaxUpdateLength)>, v: VertexIndex) -> int {
    choose|j: int| 0 <= j < p.len() && (#[trigger] p[j]).0 == v
}

/// The entry carrying key `v`, if any.
pub open spec fn plookup(p: Seq<(VertexIndex, MaxUpdateLength)>, v: VertexIndex) -> Option<
    MaxUpdateLength,
> {
    if phas(p, v) {
        Some(p[ppos(p, v)].1)
    } else {
        None
    }
}

/// The map with key `v` bound to `m`: an existing entry is replaced in
/// place, a missing one inserted at its position in the key order.
pub open spec fn pinsert(
    p: Seq<(VertexIndex, MaxUpdateLength)>,
    v: VertexIndex,
    m: MaxUpdateLength,
) -> Seq<(VertexIndex, MaxUpdateLength)>
    decreases p.len(),
{
    if p.len() == 0 {
        seq![(v, m)]
    } else if p[0].0 == v {
        seq![(v, m)] + p.drop_first()
    } else if v < p[0].0 {
        seq![(v, m)] + p
    } else {
        seq![p[0]] + pinsert(p.drop_first(), v, m)
    }
}

/// Pins [`pinsert`] down at a replaced entry.
proof fn lemma_pinsert_update(
    p: Seq<(VertexIndex, MaxUpdateLength)>,
    v: VertexIndex,
    m: MaxUpdateLength,
    i: int,
)
    requires
        pending_wf(p),
        0 <= i < p.len(),
        p[i].0 == v,
    ensures
        pinsert(p, v, m) == p.update(i, (v, m)),
    decreases p.len(),
{
    if i == 0 {
        assert(pinsert(p, v, m) =~= p.update(0, (v, m)));
    } else {
        assert(p[0].0 < v);
        assert(pending_wf(p.drop_first())) by {
            assert(forall|i1: int, j1: int|
                0 <= i1 < j1 < p.drop_first().len() ==> (#[trigger] p.drop_first()[i1]).0 < (
                #[trigger] p.drop_first()[j1]).0);
        }
        assert(p.drop_first()[i - 1].0 == v);
        lemma_pinsert_update(p.drop_first(), v, m, i - 1);
        assert(pinsert(p, v, m) =~= p.update(i, (v, m)));
    }
}

/// Pins [`pinsert`] down at a fresh key's sorted position.
proof fn lemma_pinsert_fresh(
    p: Seq<(VertexIndex, MaxUpdateLength)>,
    v: VertexIndex,
    m: MaxUpdateLength,
    pos: int,
)
    requires
        pending_wf(p),
        0 <= pos <= p.len(),
        forall|j: int| 0 <= j < pos ==> (#[trigger] p[j]).0 < v,
        pos < p.len() ==> p[pos].0 > v,
    ensures
        pinsert(p, v, m) == p.take(pos).push((v, m)) + p.skip(pos),
    decreases p.len(),
{
    if p.len() == 0 {
        assert(pinsert(p, v, m) =~= p.take(0).push((v, m)) + p.skip(0));
    } else if pos == 0 {
        assert(v < p[0].0);
        assert(pinsert(p, v, m) =~= p.take(0).push((v, m)) + p.skip(0));
    } else {
        assert(p[0].0 < v);
        assert(pending_wf(p.drop_first())) by {
            assert(forall|i1: int, j1: int|
                0 <= i1 < j1 < p.drop_first().len() ==> (#[trigger] p.drop_first()[i1]).0 < (
                #[trigger] p.drop_first()[j1]).0);
        }
        assert(forall|j: int| 0 <= j < pos - 1 ==> (#[trigger] p.drop_first()[j]).0 < v);
        lemma_pinsert_fresh(p.drop_first(), v, m, pos - 1);
        assert(pinsert(p, v, m) =~= p.take(pos).push((v, m)) + p.skip(pos));
    }
}

/// The map with the entry for `v` taken out.
pub open spec fn premove(p: Seq<(VertexIndex, MaxUpdateLength)>, v: VertexIndex) -> Seq<
    (VertexIndex, MaxUpdateLength),
> {
    if phas(p, v) {
        p.remove(ppos(p, v))
    } else {
        p
    }
}

/// The sorted list with `m` placed after every entry at or below its rank.
pub open spec fn hinsert(s: Seq<MaxUpdateLength>, m: MaxUpdateLength) -> Seq<MaxUpdateLength> {
    let pos = hpos(s, m);
    s.take(pos).push(m) + s.skip(pos)
}

/// The insertion point for `m`: past every trailing entry above its rank,
/// so equal ranks keep arrival order.
pub open spec fn hpos(s: Seq<MaxUpdateLength>, m: MaxUpdateLength) -> int
    decreases s.len(),
{
    if s.len() == 0 {
        0
    } else if mul_le(s.last(), m) {
        s.len() as int
    } else {
        hpos(s.drop_last(), m)
    }
}

/// Pins [`hpos`] down from its boundary conditions.
proof fn lemma_hpos_at(s: Seq<MaxUpdateLength>, m: MaxUpdateLength, pos: int)
    requires
        0 <= pos <= s.len(),
        pos == 0 || mul_le(s[pos - 1], m),
        forall|j: int| pos <= j < s.len() ==> !mul_le(#[trigger] s[j], m),
    ensures
        hpos(s, m) == pos,
    decreases s.len(),
{
    if s.len() > 0 {
        if mul_le(s.last(), m) {
            assert(pos == s.len());
        } else {
            assert(pos < s.len());
            lemma_hpos_at(s.drop_last(), m, pos);
        }
    }
}

/// Everything observable of a conflict group.
#[verifier::ext_equal]
pub ghost struct GroupV {
    /// whether the group holds conflicts rather than a growth length
    pub is_conflicts: bool,
    /// the common growth length, when no conflict was reported
    pub grow: Weight,
    /// the ordered conflicts
    pub heap: Seq<MaxUpdateLength>,
    /// the pending shrink stops, keyed by representative vertex
    pub pending: Seq<(VertexIndex, MaxUpdateLength)>,
}

impl View for GroupMaxUpdateLength {
    type V = GroupV;

    open spec fn view(&self) -> GroupV {
        match *self {
            GroupMaxUpdateLength::NonZeroGrow(w) => GroupV {
                is_conflicts: false,
                grow: w,
                heap: Seq::empty(),
                pending: Seq::empty(),
            },
            GroupMaxUpdateLength::Conflicts(ref q) => GroupV {
                is_conflicts: true,
                grow: 0,
                heap: q.heap@,
                pending: q.pending_stops@,
            },
        }
    }
}

impl GroupV {
    /// Well-formedness of a group's content.
    pub open spec fn wf(self) -> bool {
        self.is_conflicts ==> heap_wf(self.heap) && pending_wf(self.pending)
    }

    /// One conflict or growth report folded into the group: growth lengths
    /// take the minimum while no conflict stands and are ignored after;
    /// shrink stops go to the pending map keyed by `rep`, where a second
    /// stop with a different pressing node merges into a `Conflicting`.
    pub open spec fn added(self, m: MaxUpdateLength, rep: VertexIndex) -> GroupV {
        if !self.is_conflicts {
            match m {
                MaxUpdateLength::NonZeroGrow(length) => GroupV {
                    grow: if length < self.grow {
                        length
                    } else {
                        self.grow
                    },
                    ..self
                },
                _ => (GroupV {
                    is_conflicts: true,
                    grow: 0,
                    heap: Seq::empty(),
                    pending: Seq::empty(),
                }).pushed(m, rep),
            }
        } else {
            match m {
                MaxUpdateLength::NonZeroGrow(_) => self,
                _ => self.pushed(m, rep),
            }
        }
    }

    /// A conflict placed into a group already in conflict state.
    pub open spec fn pushed(self, m: MaxUpdateLength, rep: VertexIndex) -> GroupV {
        match m {
            MaxUpdateLength::VertexShrinkStop((_, pair_opt)) => match plookup(
                self.pending,
                rep,
            ) {
                None => GroupV { pending: pinsert(self.pending, rep, m), ..self },
                Some(existing) => match pair_opt {
                    Some(pair) => match existing {
                        MaxUpdateLength::VertexShrinkStop((_, Some(existing_pair))) => {
                            if pair.0 != existing_pair.0 {
                                GroupV {
                                    heap: hinsert(
                                        self.heap,
                                        MaxUpdateLength::Conflicting(pair, existing_pair),
                                    ),
                                    pending: premove(self.pending, rep),
                                    ..self
                                }
                            } else {
                                self
                            }
                        },
                        _ => GroupV { pending: pinsert(self.pending, rep, m), ..self },
                    },
                    None => self,
                },
            },
            _ => GroupV { heap: hinsert(self.heap, m), ..self },
        }
    }

    /// What `peek` returns: the top of the heap, else any pending stop.
    pub open spec fn peeked(self) -> Option<MaxUpdateLength> {
        if self.heap.len() > 0 {
            Some(self.heap.last())
        } else if self.pending.len() > 0 {
            Some(self.pending[0].1)
        } else {
            None
        }
    }

    /// The group after a `pop`.
    pub open spec fn popped(self) -> GroupV {
        if self.heap.len() > 0 {
            GroupV { heap: self.heap.drop_last(), ..self }
        } else if self.pending.len() > 0 {
            GroupV { pending: self.pending.remove(0), ..self }
        } else {
            self
        }
    }
}

/// Compares two conflicts by [`mul_le`].
fn mul_le_exec(x: &MaxUpdateLength, y: &MaxUpdateLength) -> (r: bool)
    ensures
        r == mul_le(*x, *y),
{
    let (t1, a1, b1) = mul_rank_exec(x);
    let (t2, a2, b2) = mul_rank_exec(y);
    t1 < t2 || (t1 == t2 && (a1 < a2 || (a1 == a2 && b1 <= b2)))
}

/// Computes [`mul_rank`] as machine integers.
fn mul_rank_exec(m: &MaxUpdateLength) -> (r: (i8, i128, i128))
    ensures
        r.0 as int == mul_rank(*m).0,
        r.1 as int == mul_rank(*m).1,
        r.2 as int == mul_rank(*m).2,
{
    match m {
        MaxUpdateLength::NonZeroGrow(_) => (0, 0, 0),
        MaxUpdateLength::VertexShrinkStop((a, _)) => (1, a.index as i128, 0),
        MaxUpdateLength::BlossomNeedExpand(a) => (2, a.index as i128, 0),
        MaxUpdateLength::TouchingVirtual((a, _), (v, _)) => (
            3,
            -(a.index as i128),
            -(*v as i128),
        ),
        MaxUpdateLength::Conflicting((a, _), (b, _)) => (
            4,
            -(a.index as i128),
            -(b.index as i128),
        ),
    }
}

/// Places `m` into the sorted heap, after every entry at or below its
/// rank.
fn heap_insert(heap: &mut Vec<MaxUpdateLength>, m: MaxUpdateLength)
    requires
        heap_wf(old(heap)@),
        !(m is NonZeroGrow),
    ensures
        final (heap)@ == hinsert(old(heap)@, m),
        heap_wf(final (heap)@),
        final (heap)@.len() == old(heap)@.len() + 1,
{
    let ghost orig = heap@;
    let mut pos: usize = heap.len();
    while pos > 0
        invariant
            pos <= heap@.len(),
            heap@ == orig,
            heap_wf(orig),
            forall|j: int| pos <= j < heap@.len() ==> !mul_le(#[trigger] heap@[j], m),
        ensures
            pos <= heap@.len(),
            heap@ == orig,
            pos == 0 || mul_le(heap@[pos - 1], m),
            forall|j: int| pos <= j < heap@.len() ==> !mul_le(#[trigger] heap@[j], m),
        decreases pos,
    {
        if mul_le_exec(&heap[pos - 1], &m) {
            break;
        }
        pos -= 1;
    }
    proof {
        assert forall|j: int| 0 <= j < pos implies mul_le(#[trigger] orig[j], m) by {
            if j < pos - 1 {
                assert(mul_le(orig[j], orig[pos - 1]));
            }
        }
        lemma_hpos_at(orig, m, pos as int);
    }
    heap.insert(pos, m);
    proof {
        assert(heap@ =~= hinsert(orig, m));
        let res = heap@;
        assert forall|i: int, j: int|
            0 <= i < j < res.len() implies mul_le(#[trigger] res[i], #[trigger] res[j]) by {
            let pi = pos as int;
            if i < pi && j == pi {
            } else if i == pi && j > pi {
                assert(!mul_le(orig[j - 1], m));
            } else if i < pi && j > pi {
                assert(mul_le(orig[i], orig[j - 1]));
            } else if i != pi && j != pi {
                assert(mul_le(orig[if i < pi { i } else { i - 1 }], orig[if j < pi {
                    j
                } else {
                    j - 1
                }]));
            }
        }
    }
}

/// Finds the position of the pending entry keyed `v`.
/// The position key `v` holds or would take in the ascending key order,
/// and whether it is already there.
fn pending_position(pending: &Vec<(VertexIndex, MaxUpdateLength)>, v: VertexIndex) -> (r: (
    usize,
    bool,
))
    requires
        pending_wf(pending@),
    ensures
        r.0 <= pending@.len(),
        forall|j: int| 0 <= j < r.0 ==> (#[trigger] pending@[j]).0 < v,
        r.1 ==> r.0 < pending@.len() && pending@[r.0 as int].0 == v && r.0 as int == ppos(
            pending@,
            v,
        ) && phas(pending@, v),
        !r.1 ==> !phas(pending@, v) && (r.0 < pending@.len() ==> pending@[r.0 as int].0 > v),
{
    let mut i: usize = 0;
    while i < pending.len()
        invariant
            pending_wf(pending@),
            i <= pending@.len(),
            forall|j: int| 0 <= j < i ==> (#[trigger] pending@[j]).0 < v,
        decreases pending@.len() - i,
    {
        let key = pending[i].0;
        if key == v {
            proof {
                assert(phas(pending@, v));
                let p2 = ppos(pending@, v);
                assert(pending@[p2].0 == v);
                if p2 < i as int {
                    assert(pending@[p2].0 < pending@[i as int].0);
                }
                if p2 > i as int {
                    assert(pending@[i as int].0 < pending@[p2].0);
                }
            }
            return (i, true);
        }
        if key > v {
            proof {
                if phas(pending@, v) {
                    let j = choose|j: int|
                        0 <= j < pending@.len() && (#[trigger] pending@[j]).0 == v;
                    if j > i as int {
                        assert(pending@[i as int].0 < pending@[j].0);
                    }
                }
            }
            return (i, false);
        }
        i += 1;
    }
    proof {
        if phas(pending@, v) {
            let j = choose|j: int| 0 <= j < pending@.len() && (#[trigger] pending@[j]).0 == v;
        }
    }
    (i, false)
}

impl GroupMaxUpdateLength {
    /// An empty group: everything allows unbounded growth.
    pub fn new() -> (r: Self)
        ensures
            r@ == (GroupV {
                is_conflicts: false,
                grow: Weight::MAX,
                heap: Seq::empty(),
                pending: Seq::empty(),
            }),
            r@.wf(),
    {
        Self::NonZeroGrow(Weight::MAX)
    }

    /// Whether nothing was reported at all.
    pub fn is_empty(&self) -> (r: bool)
        ensures
            r == (!self@.is_conflicts && self@.grow == Weight::MAX),
    {
        match self {
            Self::NonZeroGrow(w) => *w == i64::MAX,
            Self::Conflicts(_) => false,
        }
    }

    /// The common growth length, when no conflict stands.
    pub fn get_none_zero_growth(&self) -> (r: Option<Weight>)
        ensures
            r == (if !self@.is_conflicts {
                Some(self@.grow)
            } else {
                None::<Weight>
            }),
    {
        match self {
            Self::NonZeroGrow(length) => Some(*length),
            Self::Conflicts(_) => None,
        }
    }

    /// Folds one shrink-stop event into a conflict queue: the first stop at
    /// a vertex waits in the map; a second one carrying a different
    /// pressing node merges with it into a `Conflicting` on the heap.
    /// Anything that is not a shrink stop goes straight to the heap.
    pub fn add_pending_stop(
        heap: &mut Vec<MaxUpdateLength>,
        pending_stops: &mut Vec<(VertexIndex, MaxUpdateLength)>,
        max_update_length: MaxUpdateLength,
        rep: VertexIndex,
    )
        requires
            heap_wf(old(heap)@),
            pending_wf(old(pending_stops)@),
            !(max_update_length is NonZeroGrow),
        ensures
            heap_wf(final (heap)@),
            pending_wf(final (pending_stops)@),
            (GroupV {
                is_conflicts: true,
                grow: 0,
                heap: final (heap)@,
                pending: final (pending_stops)@,
            }) == (GroupV {
                is_conflicts: true,
                grow: 0,
                heap: old(heap)@,
                pending: old(pending_stops)@,
            }).pushed(max_update_length, rep),
    {
        match max_update_length {
            MaxUpdateLength::VertexShrinkStop((_, pair_opt)) => {
                let (at, present) = pending_position(pending_stops, rep);
                if present {
                    match pair_opt {
                        Some(pair) => {
                            let existing = pending_stops[at].1;
                            match existing {
                                MaxUpdateLength::VertexShrinkStop((_, Some(existing_pair)))
                                    => {
                                    if pair.0 != existing_pair.0 {
                                        heap_insert(
                                            heap,
                                            MaxUpdateLength::Conflicting(
                                                pair,
                                                existing_pair,
                                            ),
                                        );
                                        pending_stops.remove(at);
                                        proof {
                                            assert(pending_stops@ =~= premove(
                                                old(pending_stops)@,
                                                rep,
                                            ));
                                            assert forall|i1: int, j1: int|
                                                0 <= i1 < j1 < pending_stops@.len() implies (
                                            #[trigger] pending_stops@[i1]).0 < (
                                            #[trigger] pending_stops@[j1]).0 by {
                                                let a1 = if i1 < at as int {
                                                    i1
                                                } else {
                                                    i1 + 1
                                                };
                                                let b1 = if j1 < at as int {
                                                    j1
                                                } else {
                                                    j1 + 1
                                                };
                                                assert(old(pending_stops)@[a1].0 < old(
                                                    pending_stops,
                                                )@[b1].0);
                                            }
                                            assert(pending_wf(pending_stops@));
                                        }
                                    }
                                },
                                _ => {
                                    pending_stops.set(at, (rep, max_update_length));
                                    proof {
                                        lemma_pinsert_update(
                                            old(pending_stops)@,
                                            rep,
                                            max_update_length,
                                            at as int,
                                        );
                                        assert(pending_stops@ =~= pinsert(
                                            old(pending_stops)@,
                                            rep,
                                            max_update_length,
                                        ));
                                        assert forall|i1: int, j1: int|
                                            0 <= i1 < j1 < pending_stops@.len() implies (
                                        #[trigger] pending_stops@[i1]).0 < (
                                        #[trigger] pending_stops@[j1]).0 by {
                                            assert(old(pending_stops)@[i1].0 < old(
                                                pending_stops,
                                            )@[j1].0);
                                        }
                                    }
                                },
                            }
                        },
                        None => {},
                    }
                } else {
                    pending_stops.insert(at, (rep, max_update_length));
                    proof {
                        lemma_pinsert_fresh(
                            old(pending_stops)@,
                            rep,
                            max_update_length,
                            at as int,
                        );
                        assert(pending_stops@ =~= pinsert(
                            old(pending_stops)@,
                            rep,
                            max_update_length,
                        ));
                        assert forall|i1: int, j1: int|
                            0 <= i1 < j1 < pending_stops@.len() implies (
                        #[trigger] pending_stops@[i1]).0 < (
                        #[trigger] pending_stops@[j1]).0 by {
                            let ai = at as int;
                            if i1 < ai && j1 > ai {
                                assert(old(pending_stops)@[i1].0 < rep);
                                assert(old(pending_stops)@[j1 - 1].0 > rep) by {
                                    if j1 - 1 > ai {
                                        assert(old(pending_stops)@[ai].0 < old(
                                            pending_stops,
                                        )@[j1 - 1].0);
                                    }
                                }
                            } else if i1 < ai && j1 < ai {
                                assert(old(pending_stops)@[i1].0 < old(
                                    pending_stops,
                                )@[j1].0);
                            } else if i1 > ai && j1 > ai {
                                assert(old(pending_stops)@[i1 - 1].0 < old(
                                    pending_stops,
                                )@[j1 - 1].0);
                            } else if i1 == ai {
                                assert(old(pending_stops)@[j1 - 1].0 > rep) by {
                                    if j1 - 1 > ai {
                                        assert(old(pending_stops)@[ai].0 < old(
                                            pending_stops,
                                        )@[j1 - 1].0);
                                    }
                                }
                            } else {
                                assert(old(pending_stops)@[i1].0 < rep);
                            }
                        }
                    }
                }
            },
            _ => {
                heap_insert(heap, max_update_length);
            },
        }
    }

    /// Folds one report into the group, resolving the shrink-stop key
    /// through the owning interface.
    pub fn add(&mut self, max_update_length: MaxUpdateLength, interface: &DualModuleInterface)
        requires
            old(self)@.wf(),
            interface.inv(),
            max_update_length matches MaxUpdateLength::VertexShrinkStop((a, _))
                ==> interface.is_tracked(a.index as int),
        ensures
            final (self)@.wf(),
            final (self)@ == old(self)@.added(
                max_update_length,
                rep_of(max_update_length, *interface),
            ),
    {
        let rep: VertexIndex = match &max_update_length {
            MaxUpdateLength::VertexShrinkStop((a, _)) => a.get_representative_vertex(
                interface,
            ),
            _ => 0,
        };
        match self {
            Self::NonZeroGrow(current_length) => {
                match max_update_length {
                    MaxUpdateLength::NonZeroGrow(length) => {
                        if length < *current_length {
                            *self = Self::NonZeroGrow(length);
                        }
                    },
                    _ => {
                        let mut heap: Vec<MaxUpdateLength> = Vec::new();
                        let mut pending_stops: Vec<(VertexIndex, MaxUpdateLength)> =
                            Vec::new();
                        Self::add_pending_stop(
                            &mut heap,
                            &mut pending_stops,
                            max_update_length,
                            rep,
                        );
                        *self = Self::Conflicts(ConflictQueue { heap, pending_stops });
                    },
                }
            },
            Self::Conflicts(queue) => {
                if !matches!(max_update_length, MaxUpdateLength::NonZeroGrow(_)) {
                    Self::add_pending_stop(
                        &mut queue.heap,
                        &mut queue.pending_stops,
                        max_update_length,
                        rep,
                    );
                }
            },
        }
    }

    /// Takes the top conflict: the highest-priority heap entry, else any
    /// pending shrink stop, else nothing.
    pub fn pop(&mut self) -> (r: Option<MaxUpdateLength>)
        requires
            old(self)@.wf(),
            old(self)@.is_conflicts,
        ensures
            final (self)@.wf(),
            r == old(self)@.peeked(),
            final (self)@ == old(self)@.popped(),
    {
        match self {
            Self::NonZeroGrow(_) => {
                proof {
                    assert(false);
                }
                None
            },
            Self::Conflicts(queue) => {
                match queue.heap.pop() {
                    Some(m) => Some(m),
                    None => {
                        if queue.pending_stops.len() > 0 {
                            let (_, m) = queue.pending_stops.remove(0);
                            Some(m)
                        } else {
                            None
                        }
                    },
                }
            },
        }
    }

    /// Reads the top conflict without removing it.
    pub fn peek(&self) -> (r: Option<MaxUpdateLength>)
        requires
            self@.wf(),
            self@.is_conflicts,
        ensures
            r == self@.peeked(),
    {
        match self {
            Self::NonZeroGrow(_) => {
                proof {
                    assert(false);
                }
                None
            },
            Self::Conflicts(queue) => {
                if queue.heap.len() > 0 {
                    Some(queue.heap[queue.heap.len() - 1])
                } else if queue.pending_stops.len() > 0 {
                    Some(queue.pending_stops[0].1)
                } else {
                    None
                }
            },
        }
    }
}

/// The insertion point always lies inside the list.
proof fn lemma_hpos_bound(s: Seq<MaxUpdateLength>, m: MaxUpdateLength)
    ensures
        0 <= hpos(s, m) <= s.len(),
    decreases s.len(),
{
    if s.len() > 0 && !mul_le(s.last(), m) {
        lemma_hpos_bound(s.drop_last(), m);
    }
}

/// Two placements into a sorted heap land in the same list whichever goes
/// first, as long as their ranks differ; rank ties keep arrival order.
#[verifier::rlimit(100)]
proof fn lemma_hinsert_commutes(s: Seq<MaxUpdateLength>, a: MaxUpdateLength, b: MaxUpdateLength)
    requires
        forall|i: int, j: int| 0 <= i < j < s.len() ==> mul_le(#[trigger] s[i], #[trigger] s[j]),
        mul_rank(a) != mul_rank(b) || a == b,
    ensures
        hinsert(hinsert(s, a), b) == hinsert(hinsert(s, b), a),
    decreases s.len(),
{
    if a == b {
    } else if s.len() == 0 {
        let sa = hinsert(s, a);
        let sb = hinsert(s, b);
        assert(hpos(s, a) == 0 && hpos(s, b) == 0);
        assert(sa =~= seq![a]);
        assert(sb =~= seq![b]);
        if mul_le(a, b) {
            assert(!mul_le(b, a));
            assert(hpos(sa, b) == 1);
            assert(hinsert(sa, b) =~= seq![a, b]);
            assert(sb.drop_last() =~= s);
            assert(hpos(sb, a) == 0);
            assert(hinsert(sb, a) =~= seq![a, b]);
        } else {
            assert(mul_le(b, a));
            assert(hpos(sb, a) == 1);
            assert(hinsert(sb, a) =~= seq![b, a]);
            assert(sa.drop_last() =~= s);
            assert(hpos(sa, b) == 0);
            assert(hinsert(sa, b) =~= seq![b, a]);
        }
    } else {
        let t = s.last();
        lemma_hpos_bound(s, a);
        lemma_hpos_bound(s, b);
        lemma_hpos_bound(s.drop_last(), a);
        lemma_hpos_bound(s.drop_last(), b);
        assert(forall|i: int, j: int|
            0 <= i < j < s.drop_last().len() ==> mul_le(
                #[trigger] s.drop_last()[i],
                #[trigger] s.drop_last()[j],
            ));
        if mul_le(t, a) && mul_le(t, b) {
            assert(hinsert(s, a) =~= s.push(a));
            assert(hinsert(s, b) =~= s.push(b));
            if mul_le(a, b) {
                assert(!mul_le(b, a));
                assert(hinsert(s.push(a), b) =~= s.push(a).push(b));
                assert(s.push(b).drop_last() =~= s);
                assert(hinsert(s.push(b), a) =~= hinsert(s, a).push(b));
                assert(hinsert(s.push(b), a) =~= s.push(a).push(b));
            } else {
                assert(mul_le(b, a));
                assert(hinsert(s.push(b), a) =~= s.push(b).push(a));
                assert(s.push(a).drop_last() =~= s);
                assert(hinsert(s.push(a), b) =~= hinsert(s, b).push(a));
                assert(hinsert(s.push(a), b) =~= s.push(b).push(a));
            }
        } else if !mul_le(t, a) && !mul_le(t, b) {
            lemma_hpos_bound(s.drop_last(), a);
            lemma_hpos_bound(s.drop_last(), b);
            assert(hinsert(s, a) =~= hinsert(s.drop_last(), a).push(t));
            assert(hinsert(s, b) =~= hinsert(s.drop_last(), b).push(t));
            assert(hinsert(s, a).drop_last() =~= hinsert(s.drop_last(), a));
            assert(hinsert(s, b).drop_last() =~= hinsert(s.drop_last(), b));
            assert(hinsert(s, a).last() == t && hinsert(s, b).last() == t);
            assert(hpos(hinsert(s, a), b) == hpos(hinsert(s.drop_last(), a), b));
            assert(hpos(hinsert(s, b), a) == hpos(hinsert(s.drop_last(), b), a));
            lemma_hpos_bound(hinsert(s.drop_last(), a), b);
            lemma_hpos_bound(hinsert(s.drop_last(), b), a);
            assert(hinsert(hinsert(s, a), b) =~= hinsert(hinsert(s.drop_last(), a), b).push(
                t,
            ));
            assert(hinsert(hinsert(s, b), a) =~= hinsert(hinsert(s.drop_last(), b), a).push(
                t,
            ));
            lemma_hinsert_commutes(s.drop_last(), a, b);
        } else if mul_le(t, a) && !mul_le(t, b) {
            assert(!mul_le(a, b));
            assert(hinsert(s, a) =~= s.push(a));
            assert(s.push(a).drop_last() =~= s);
            assert(hinsert(s.push(a), b) =~= hinsert(s, b).push(a));
            lemma_hpos_bound(s.drop_last(), b);
            assert(hinsert(s, b) =~= hinsert(s.drop_last(), b).push(t));
            assert(hinsert(s, b).last() == t);
            assert(hinsert(hinsert(s, b), a) =~= hinsert(s, b).push(a));
        } else {
            assert(!mul_le(b, a));
            assert(hinsert(s, b) =~= s.push(b));
            assert(s.push(b).drop_last() =~= s);
            assert(hinsert(s.push(b), a) =~= hinsert(s, a).push(b));
            lemma_hpos_bound(s.drop_last(), a);
            assert(hinsert(s, a) =~= hinsert(s.drop_last(), a).push(t));
            assert(hinsert(s, a).last() == t);
            assert(hinsert(hinsert(s, a), b) =~= hinsert(s, a).push(b));
        }
    }
}

/// Folding two growth reports or resolvable conflicts into a group in
/// either order yields the same group, so every later `pop` agrees; the
/// order only matters for rank ties, which keep arrival order, and for
/// shrink stops, whose rendezvous bookkeeping records which side arrived
/// first.
pub proof fn lemma_add_commutes(
    g: GroupV,
    a: MaxUpdateLength,
    b: MaxUpdateLength,
    rep_a: VertexIndex,
    rep_b: VertexIndex,
)
    requires
        g.wf(),
        !(a is VertexShrinkStop),
        !(b is VertexShrinkStop),
        mul_rank(a) != mul_rank(b) || a == b,
    ensures
        g.added(a, rep_a).added(b, rep_b) == g.added(b, rep_b).added(a, rep_a),
{
    let empty_sorted: Seq<MaxUpdateLength> = Seq::empty();
    match (a, b) {
        (MaxUpdateLength::NonZeroGrow(_), MaxUpdateLength::NonZeroGrow(_)) => {
            assert(g.added(a, rep_a).added(b, rep_b) =~= g.added(b, rep_b).added(a, rep_a));
        },
        (MaxUpdateLength::NonZeroGrow(_), _) => {
            assert(g.added(a, rep_a).added(b, rep_b) =~= g.added(b, rep_b).added(a, rep_a));
        },
        (_, MaxUpdateLength::NonZeroGrow(_)) => {
            assert(g.added(a, rep_a).added(b, rep_b) =~= g.added(b, rep_b).added(a, rep_a));
        },
        (_, _) => {
            if g.is_conflicts {
                lemma_hinsert_commutes(g.heap, a, b);
                assert(g.added(a, rep_a).added(b, rep_b) =~= g.added(b, rep_b).added(
                    a,
                    rep_a,
                ));
            } else {
                lemma_hinsert_commutes(empty_sorted, a, b);
                assert(g.added(a, rep_a).added(b, rep_b) =~= g.added(b, rep_b).added(
                    a,
                    rep_a,
                ));
            }
        },
    }
}

/// The representative vertex a report is keyed under: meaningful only for
/// shrink stops.
pub open spec fn rep_of(m: MaxUpdateLength, interface: DualModuleInterface) -> VertexIndex {
    match m {
        MaxUpdateLength::VertexShrinkStop((a, _)) => interface.spec_rep_vertex(a.index as int),
        _ => 0,
    }
}

/// A heap with every entry of `s` placed in, first to last.
pub open spec fn hmerged(h: Seq<MaxUpdateLength>, s: Seq<MaxUpdateLength>) -> Seq<
    MaxUpdateLength,
>
    decreases s.len(),
{
    if s.len() == 0 {
        h
    } else {
        hinsert(hmerged(h, s.drop_last()), s.last())
    }
}

/// A group with every pending entry of `p` folded in, first to last.
pub open spec fn pmerged(
    g: GroupV,
    p: Seq<(VertexIndex, MaxUpdateLength)>,
    itf: DualModuleInterface,
) -> GroupV
    decreases p.len(),
{
    if p.len() == 0 {
        g
    } else {
        pmerged(g.pushed(p[0].1, rep_of(p[0].1, itf)), p.drop_first(), itf)
    }
}

impl GroupMaxUpdateLength {
    /// Merges another group in: growth lengths take the minimum while no
    /// conflict stands, conflicts absorb the other's heap and re-key its
    /// pending stops, and a group already in conflict ignores growth.
    pub fn extend(&mut self, other: Self, interface: &DualModuleInterface)
        requires
            old(self)@.wf(),
            other@.wf(),
            interface.inv(),
            forall|k: int|
                0 <= k < other@.pending.len() ==> ((#[trigger] other@.pending[k]).1 matches
                    MaxUpdateLength::VertexShrinkStop((a, _)) ==> interface.is_tracked(
                    a.index as int,
                )),
        ensures
            final (self)@.wf(),
            (!other@.is_conflicts && other@.grow == Weight::MAX) ==> final (self)@ == old(self)@,
            (!other@.is_conflicts && other@.grow < Weight::MAX && !old(self)@.is_conflicts)
                ==> final (self)@ == (GroupV {
                grow: if other@.grow < old(self)@.grow {
                    other@.grow
                } else {
                    old(self)@.grow
                },
                ..old(self)@
            }),
            (!other@.is_conflicts && old(self)@.is_conflicts) ==> final (self)@ == old(self)@,
            (other@.is_conflicts && !old(self)@.is_conflicts) ==> final (self)@ == other@,
            (other@.is_conflicts && old(self)@.is_conflicts) ==> final (self)@ == pmerged(
                (GroupV { heap: hmerged(old(self)@.heap, other@.heap), ..old(self)@ }),
                other@.pending,
                *interface,
            ),
    {
        if other.is_empty() {
            return ;
        }
        match self {
            Self::NonZeroGrow(current_length) => {
                match other {
                    Self::NonZeroGrow(length) => {
                        if length < *current_length {
                            *self = Self::NonZeroGrow(length);
                        }
                    },
                    Self::Conflicts(queue) => {
                        *self = Self::Conflicts(queue);
                    },
                }
            },
            Self::Conflicts(queue) => {
                match other {
                    Self::Conflicts(other_queue) => {
                        let ghost heap0 = queue.heap@;
                        let oh = other_queue.heap;
                        let mut k: usize = 0;
                        while k < oh.len()
                            invariant
                                k <= oh@.len(),
                                heap_wf(queue.heap@),
                                pending_wf(queue.pending_stops@),
                                queue.pending_stops@ == old(self)@.pending,
                                heap0 == old(self)@.heap,
                                forall|q: int|
                                    0 <= q < oh@.len() ==> !((#[trigger] oh@[q])
                                        is NonZeroGrow),
                                queue.heap@ == hmerged(heap0, oh@.take(k as int)),
                            decreases oh@.len() - k,
                        {
                            heap_insert(&mut queue.heap, oh[k]);
                            proof {
                                assert(oh@.take(k as int + 1).drop_last() =~= oh@.take(
                                    k as int,
                                ));
                                assert(oh@.take(k as int + 1).last() == oh@[k as int]);
                            }
                            k += 1;
                        }
                        proof {
                            assert(oh@.take(oh@.len() as int) =~= oh@);
                        }
                        let op = other_queue.pending_stops;
                        let ghost g_mid = GroupV {
                            is_conflicts: true,
                            grow: 0,
                            heap: queue.heap@,
                            pending: queue.pending_stops@,
                        };
                        let mut k2: usize = 0;
                        while k2 < op.len()
                            invariant
                                k2 <= op@.len(),
                                heap_wf(queue.heap@),
                                pending_wf(queue.pending_stops@),
                                interface.inv(),
                                forall|q: int|
                                    0 <= q < op@.len() ==> ((#[trigger] op@[q]).1 matches
                                        MaxUpdateLength::VertexShrinkStop((a, _))
                                        ==> interface.is_tracked(a.index as int)),
                                forall|q: int|
                                    0 <= q < op@.len() ==> (#[trigger] op@[q]).1
                                        is VertexShrinkStop,
                                (GroupV {
                                    is_conflicts: true,
                                    grow: 0,
                                    heap: queue.heap@,
                                    pending: queue.pending_stops@,
                                }) == pmerged(g_mid, op@.take(k2 as int), *interface),
                            decreases op@.len() - k2,
                        {
                            let (_, m) = op[k2];
                            let rep: VertexIndex = match &m {
                                MaxUpdateLength::VertexShrinkStop((a, _)) => a
                                    .get_representative_vertex(interface),
                                _ => 0,
                            };
                            Self::add_pending_stop(
                                &mut queue.heap,
                                &mut queue.pending_stops,
                                m,
                                rep,
                            );
                            proof {
                                lemma_pmerged_step(g_mid, op@, k2 as int, *interface);
                            }
                            k2 += 1;
                        }
                        proof {
                            assert(op@.take(op@.len() as int) =~= op@);
                            assert(g_mid =~= (GroupV {
                                heap: hmerged(old(self)@.heap, other@.heap),
                                ..old(self)@
                            }));
                        }
                    },
                    Self::NonZeroGrow(_) => {},
                }
            },
        }
    }
}

/// One step of the pending-stop fold.
proof fn lemma_pmerged_step(
    g: GroupV,
    p: Seq<(VertexIndex, MaxUpdateLength)>,
    k: int,
    itf: DualModuleInterface,
)
    requires
        0 <= k < p.len(),
    ensures
        pmerged(g, p.take(k + 1), itf) == pmerged(g, p.take(k), itf).pushed(
            p[k].1,
            rep_of(p[k].1, itf),
        ),
    decreases k,
{
    let g0 = g.pushed(p[0].1, rep_of(p[0].1, itf));
    if k == 0 {
        assert(p.take(1).drop_first() =~= p.take(0));
        assert(p.take(1)[0] == p[0]);
        assert(pmerged(g, p.take(0), itf) == g);
        assert(pmerged(g, p.take(1), itf) == pmerged(
            g.pushed(p.take(1)[0].1, rep_of(p.take(1)[0].1, itf)),
            p.take(1).drop_first(),
            itf,
        ));
    } else {
        assert(p.take(k + 1)[0] == p[0]);
        assert(p.take(k)[0] == p[0]);
        assert(p.take(k + 1).drop_first() =~= p.drop_first().take(k));
        assert(p.take(k).drop_first() =~= p.drop_first().take(k - 1));
        assert(pmerged(g, p.take(k + 1), itf) == pmerged(
            g0,
            p.drop_first().take(k),
            itf,
        ));
        assert(pmerged(g, p.take(k), itf) == pmerged(g0, p.drop_first().take(k - 1), itf));
        lemma_pmerged_step(g0, p.drop_first(), k - 1, itf);
        assert(p.drop_first()[k - 1] == p[k]);
    }
}

impl MaxUpdateLength {
    /// Whether this is a conflict between exactly the two given nodes, in
    /// either order.
    pub fn is_conflicting(&self, a: &DualNodePtr, b: &DualNodePtr) -> (r: bool)
        ensures
            r == (self matches MaxUpdateLength::Conflicting((n1, _), (n2, _)) && ((n1 == a && n2
                == b) || (n1 == b && n2 == a))),
    {
        if let MaxUpdateLength::Conflicting((n1, _), (n2, _)) = self {
            if n1.index == a.index && n2.index == b.index {
                return true;
            }
            if n1.index == b.index && n2.index == a.index {
                return true;
            }
        }
        false
    }

    /// The growth length, for a NonZeroGrow report.
    pub fn get_none_zero_growth(&self) -> (r: Option<Weight>)
        ensures
            r == (if self is NonZeroGrow {
                Some(self->NonZeroGrow_0)
            } else {
                None::<Weight>
            }),
    {
        match self {
            Self::NonZeroGrow(length) => Some(*length),
            _ => None,
        }
    }

    /// The two conflicting nodes, for a Conflicting report.
    pub fn get_conflicting(&self) -> (r: Option<(DualNodePtr, DualNodePtr)>)
        ensures
            r == (match *self {
                MaxUpdateLength::Conflicting((a, _), (b, _)) => Some((a, b)),
                _ => None::<(DualNodePtr, DualNodePtr)>,
            }),
    {
        match self {
            Self::Conflicting((a, _), (b, _)) => Some((*a, *b)),
            _ => None,
        }
    }

    /// The node and the virtual vertex, for a TouchingVirtual report.
    pub fn get_touching_virtual(&self) -> (r: Option<(DualNodePtr, VertexIndex)>)
        ensures
            r == (match *self {
                MaxUpdateLength::TouchingVirtual((a, _), (v, _)) => Some((a, v)),
                _ => None::<(DualNodePtr, VertexIndex)>,
            }),
    {
        match self {
            Self::TouchingVirtual((a, _), (v, _)) => Some((*a, *v)),
            _ => None,
        }
    }

    /// The blossom, for a BlossomNeedExpand report.
    pub fn get_blossom_need_expand(&self) -> (r: Option<DualNodePtr>)
        ensures
            r == (match *self {
                MaxUpdateLength::BlossomNeedExpand(a) => Some(a),
                _ => None::<DualNodePtr>,
            }),
    {
        match self {
            Self::BlossomNeedExpand(a) => Some(*a),
            _ => None,
        }
    }

    /// The stopped node, for a VertexShrinkStop report.
    pub fn get_vertex_shrink_stop(&self) -> (r: Option<DualNodePtr>)
        ensures
            r == (match *self {
                MaxUpdateLength::VertexShrinkStop((a, _)) => Some(a),
                _ => None::<DualNodePtr>,
            }),
    {
        match self {
            Self::VertexShrinkStop((a, _)) => Some(*a),
            _ => None,
        }
    }
}

/// A request to propagate a dual-node state change onto a mirrored vertex
/// owned by another unit.  This is the message vocabulary of a partitioned
/// backend that pushes state across unit boundaries; the graph backend of
/// this crate instead recomputes coverage from the fused interface, so it
/// never needs to send one.
#[derive(Clone, Copy, PartialEq, Eq, Debug)]
pub struct SyncRequest {
    /// the unit that owns the mirrored vertex
    pub mirror_unit_index: usize,
    /// the vertex to synchronize
    pub vertex_index: VertexIndex,
    /// the propagated dual node and its dual variable, telling a plain
    /// shrink from one that must report a shrink stop
    pub propagated_dual_node: Option<(DualNodePtr, Weight)>,
    /// the propagated grandson, always a syndrome node
    pub propagated_grandson_dual_node: Option<(DualNodePtr, Weight)>,
}

/// Remembers overridden edge weights so they can be reverted once an
/// erasure clears.
#[derive(Clone, Debug)]
pub struct EdgeWeightModifier {
    /// the modified edges with their original weights, in push order
    pub modified: Vec<(EdgeIndex, Weight)>,
}

impl EdgeWeightModifier {
    /// An empty record.
    pub fn new() -> (r: Self)
        ensures
            r.modified@ == Seq::<(EdgeIndex, Weight)>::empty(),
    {
        EdgeWeightModifier { modified: Vec::new() }
    }

    /// Records that an edge's weight was overridden.
    pub fn push_modified_edge(&mut self, erasure_edge: EdgeIndex, original_weight: Weight)
        ensures
            final (self).modified@ == old(self).modified@.push((erasure_edge, original_weight)),
    {
        self.modified.push((erasure_edge, original_weight));
    }

    /// Whether some edge still awaits reverting.
    pub fn has_modified_edges(&self) -> (r: bool)
        ensures
            r == (self.modified@.len() > 0),
    {
        self.modified.len() > 0
    }

    /// Takes the most recently recorded edge; the caller checks
    /// [`Self::has_modified_edges`] first.
    pub fn pop_modified_edge(&mut self) -> (r: (EdgeIndex, Weight))
        requires
            old(self).modified@.len() > 0,
        ensures
            final (self).modified@ == old(self).modified@.drop_last(),
            r == old(self).modified@.last(),
    {
        let r = self.modified.pop();
        match r {
            Some(pair) => pair,
            None => {
                proof {
                    assert(false);
                }
                (0, 0)
            },
        }
    }
}

impl DualModuleInterface {
    /// Whether growing by `length` keeps every total and every dual
    /// variable representable.
    pub fn grow_fits(&self, length: Weight) -> (r: bool)
        requires
            self.inv(),
            0 < length,
        ensures
            r == (self.dual_variable_global_progress + length <= i64::MAX && i64::MIN
                <= self.sum_dual_variables + length * self.sum_grow_speed <= i64::MAX && forall|
                i: int,
            |
                self.is_tracked(i) ==> i64::MIN <= (#[trigger] self.node_at(
                    i,
                )).spec_dual_variable((self.dual_variable_global_progress + length) as i64)
                    <= i64::MAX),
    {
        if (self.dual_variable_global_progress as i128) + (length as i128) > i64::MAX as i128 {
            return false;
        }
        proof {
            lemma_speed_sum_bound(self.arena());
            let l: int = length as int;
            let sp: int = self.sum_grow_speed as int;
            assert(l * sp <= 0x8000_0000_0000_0000int * 0x1000_0000int && -(
            0x8000_0000_0000_0000int * 0x1000_0000int) <= l * sp) by (nonlinear_arith)
                requires
                    0 < l <= 0x8000_0000_0000_0000int,
                    -(0x1000_0000int) <= sp <= 0x1000_0000int,
            ;
        }
        let total: i128 = self.sum_dual_variables as i128 + (length as i128)
            * (self.sum_grow_speed as i128);
        if total < i64::MIN as i128 || total > i64::MAX as i128 {
            return false;
        }
        let new_progress: i64 = self.dual_variable_global_progress + length;
        let mut i: usize = 0;
        while i < self.nodes_length
            invariant
                self.inv(),
                0 < length,
                i <= self.nodes_length,
                new_progress == self.dual_variable_global_progress + length,
                forall|k: int|
                    0 <= k < i && self.is_tracked(k) ==> i64::MIN <= (#[trigger] self.node_at(
                        k,
                    )).spec_dual_variable(new_progress) <= i64::MAX,
            decreases self.nodes_length - i,
        {
            match &self.nodes[i] {
                Some(node) => {
                    let diff: i128 = new_progress as i128
                        - node.dual_variable_cache.progress as i128;
                    let value: i128 = match node.grow_state {
                        DualNodeGrowState::Grow => node.dual_variable_cache.value as i128
                            + diff,
                        DualNodeGrowState::Stay => node.dual_variable_cache.value as i128,
                        DualNodeGrowState::Shrink => node.dual_variable_cache.value as i128
                            - diff,
                    };
                    if value < i64::MIN as i128 || value > i64::MAX as i128 {
                        proof {
                            assert(self.is_tracked(i as int));
                            assert(value == self.node_at(i as int).spec_dual_variable(
                                new_progress,
                            ));
                        }
                        return false;
                    }
                },
                None => {},
            }
            i += 1;
        }
        true
    }

    /// Creates one growing syndrome node per vertex in the pattern, in
    /// order under consecutive indices, and forwards any erasures to the
    /// backend.  Succeeds exactly when the vertices are pairwise fresh and
    /// fit under the arena cap; a failure may leave a prefix loaded.
    #[verifier::rlimit(60)]
    pub fn load<D: DualModuleImpl>(
        &mut self,
        syndrome_pattern: &SyndromePattern,
        dual_module_impl: &mut D,
    ) -> (r: Result<(), BlossomError>)
        requires
            old(self).inv(),
        ensures
            final (self).inv(),
            final (self).dual_variable_global_progress == old(self).dual_variable_global_progress,
            r is Ok <==> {
                &&& old(self).nodes_length + syndrome_pattern.syndrome_vertices@.len()
                    <= ARENA_CAP
                &&& forall|k1: int, k2: int|
                    0 <= k1 < k2 < syndrome_pattern.syndrome_vertices@.len()
                        ==> #[trigger] syndrome_pattern.syndrome_vertices@[k1] != (
                    #[trigger] syndrome_pattern.syndrome_vertices@[k2])
                &&& forall|k: int|
                    0 <= k < syndrome_pattern.syndrome_vertices@.len() ==> !old(self).has_syndrome_vertex(#[trigger] syndrome_pattern.syndrome_vertices@[k])
            },
            r is Ok ==> {
                &&& final (self).nodes_length == old(self).nodes_length
                    + syndrome_pattern.syndrome_vertices@.len()
                &&& forall|j: int|
                    0 <= j < old(self).nodes_length ==> final (self).nodes@[j] == #[trigger]
                    old(self).nodes@[j]
                &&& forall|k: int|
                    0 <= k < syndrome_pattern.syndrome_vertices@.len() ==> final(self).is_tracked(old(self).nodes_length + k) && node_view(
                        #[trigger] final (self).node_at(old(self).nodes_length + k),
                    ) == (DualNodeV {
                        index: (old(self).nodes_length + k) as NodeIndex,
                        is_blossom: false,
                        circle: Seq::empty(),
                        touching: Seq::empty(),
                        syndrome_vertex: syndrome_pattern.syndrome_vertices@[k],
                        grow_state: DualNodeGrowState::Grow,
                        parent_blossom: None,
                        dual_variable_cache: DualVariableCache {
                            value: 0,
                            progress: old(self).dual_variable_global_progress,
                        },
                    })
            },
    {
        let ghost v = syndrome_pattern.syndrome_vertices@;
        let mut idx: usize = 0;
        while idx < syndrome_pattern.syndrome_vertices.len()
            invariant
                self.inv(),
                v == syndrome_pattern.syndrome_vertices@,
                idx <= v.len(),
                self.nodes_length == old(self).nodes_length + idx,
                self.dual_variable_global_progress == old(self).dual_variable_global_progress,
                old(self).nodes_length + idx <= ARENA_CAP,
                forall|j: int|
                    0 <= j < old(self).nodes_length ==> self.nodes@[j] == #[trigger] old(self).nodes@[j],
                forall|k: int|
                    0 <= k < idx ==> self.is_tracked(old(self).nodes_length + k) && node_view(
                        #[trigger] self.node_at(old(self).nodes_length + k),
                    ) == (DualNodeV {
                        index: (old(self).nodes_length + k) as NodeIndex,
                        is_blossom: false,
                        circle: Seq::empty(),
                        touching: Seq::empty(),
                        syndrome_vertex: v[k],
                        grow_state: DualNodeGrowState::Grow,
                        parent_blossom: None,
                        dual_variable_cache: DualVariableCache {
                            value: 0,
                            progress: old(self).dual_variable_global_progress,
                        },
                    }),
                forall|x: VertexIndex|
                    #[trigger] self.has_syndrome_vertex(x) ==> old(self).has_syndrome_vertex(x)
                        || exists|k: int| 0 <= k < idx && v[k] == x,
                forall|x: VertexIndex|
                    old(self).has_syndrome_vertex(x) ==> #[trigger] self.has_syndrome_vertex(
                        x,
                    ),
                forall|k: int| 0 <= k < idx ==> self.has_syndrome_vertex(#[trigger] v[k]),
                forall|k: int|
                    0 <= k < idx ==> !old(self).has_syndrome_vertex(#[trigger] v[k]),
                forall|k1: int, k2: int|
                    0 <= k1 < k2 < idx ==> #[trigger] v[k1] != #[trigger] v[k2],
            decreases v.len() - idx,
        {
            let vertex = syndrome_pattern.syndrome_vertices[idx];
            if self.nodes_length >= ARENA_CAP {
                proof {
                    assert(old(self).nodes_length + v.len() > ARENA_CAP);
                }
                return Err(BlossomError::ArenaOverflow);
            }
            if self.find_syndrome_vertex(vertex) {
                proof {
                    assert(old(self).has_syndrome_vertex(vertex) || exists|k: int|
                        0 <= k < idx && v[k] == vertex);
                }
                return Err(BlossomError::DuplicateSyndrome(vertex));
            }
            proof {
                assert(!old(self).has_syndrome_vertex(v[idx as int])) by {
                    if old(self).has_syndrome_vertex(v[idx as int]) {
                        assert(self.has_syndrome_vertex(vertex));
                    }
                }
                assert forall|k: int| 0 <= k < idx implies #[trigger] v[k] != v[idx as
                    int] by {
                    if v[k] == v[idx as int] {
                        assert(self.has_syndrome_vertex(v[k]));
                        assert(self.has_syndrome_vertex(vertex));
                    }
                }
            }
            let ghost before = *self;
            self.create_syndrome_node(vertex, dual_module_impl);
            proof {
                assert forall|k: int| 0 <= k < idx implies (#[trigger] self.node_at(
                    old(self).nodes_length + k,
                )) == before.node_at(old(self).nodes_length + k) && self.is_tracked(
                    old(self).nodes_length + k,
                ) == before.is_tracked(old(self).nodes_length + k) by {
                    assert(self.nodes@[old(self).nodes_length + k] == before.nodes@[old(self).nodes_length + k]);
                }
                assert forall|x: VertexIndex| #[trigger] self.has_syndrome_vertex(x) implies
                    before.has_syndrome_vertex(x) || x == vertex by {
                    let w = choose|w: int|
                        self.is_tracked(w) && (#[trigger] self.node_at(w)).class
                            is SyndromeVertex && self.node_at(w).spec_syndrome_vertex() == x;
                    if w < before.nodes_length {
                        assert(self.nodes@[w] == before.nodes@[w]);
                        assert(before.is_tracked(w) && before.node_at(w).class
                            is SyndromeVertex && before.node_at(w).spec_syndrome_vertex()
                            == x);
                        assert(before.has_syndrome_vertex(x));
                    }
                }
                assert forall|x: VertexIndex|
                    before.has_syndrome_vertex(x) implies #[trigger] self.has_syndrome_vertex(
                    x,
                ) by {
                    let w = choose|w: int|
                        before.is_tracked(w) && (#[trigger] before.node_at(w)).class
                            is SyndromeVertex && before.node_at(w).spec_syndrome_vertex()
                            == x;
                    assert(self.nodes@[w] == before.nodes@[w]);
                    assert(self.is_tracked(w) && self.node_at(w).class is SyndromeVertex
                        && self.node_at(w).spec_syndrome_vertex() == x);
                }
                assert(self.is_tracked(before.nodes_length as int) && self.node_at(
                    before.nodes_length as int,
                ).class is SyndromeVertex && self.node_at(
                    before.nodes_length as int,
                ).spec_syndrome_vertex() == vertex);
                assert(self.has_syndrome_vertex(vertex));
                assert forall|k: int| 0 <= k < idx + 1 implies self.has_syndrome_vertex(
                    #[trigger] v[k],
                ) by {
                    if k < idx {
                        assert(before.has_syndrome_vertex(v[k]));
                    }
                }
            }
            idx += 1;
        }
        if syndrome_pattern.erasures.len() > 0 {
            dual_module_impl.load_erasures(&syndrome_pattern.erasures);
        }
        Ok(())
    }

    /// An interface loaded from a syndrome pattern.
    pub fn new<D: DualModuleImpl>(
        syndrome_pattern: &SyndromePattern,
        dual_module_impl: &mut D,
    ) -> (r: Result<Self, BlossomError>)
        ensures
            r matches Ok(itf) ==> itf.inv() && itf.nodes_length
                == syndrome_pattern.syndrome_vertices@.len(),
    {
        let mut array = Self::new_empty();
        match array.load(syndrome_pattern, dual_module_impl) {
            Ok(()) => Ok(array),
            Err(e) => Err(e),
        }
    }

    /// Grows by `length` in total, in as many safe steps as the backend
    /// allows; growing by zero does nothing at all.  Fails loudly when
    /// conflicts arise before the length is exhausted.
    pub fn grow_iterative<D: DualModuleImpl>(&mut self, length: Weight, dual_module_impl:
        &mut D) -> (r: Result<(), BlossomError>)
        requires
            old(self).inv(),
            0 <= length,
        ensures
            final (self).inv(),
            final (self).nodes@ == old(self).nodes@,
            final (self).nodes_length == old(self).nodes_length,
            final (self).sum_grow_speed == old(self).sum_grow_speed,
            r is Ok ==> final (self).dual_variable_global_progress == old(self).dual_variable_global_progress + length,
            r is Ok ==> final (self).sum_dual_variables == old(self).sum_dual_variables
                + length * old(self).sum_grow_speed,
            length == 0 ==> r is Ok && *final (self) == *old(self),
    {
        let mut remaining: Weight = length;
        while remaining > 0
            invariant
                self.inv(),
                0 <= remaining <= length,
                self.nodes@ == old(self).nodes@,
                self.nodes_length == old(self).nodes_length,
                self.sum_grow_speed == old(self).sum_grow_speed,
                self.dual_variable_global_progress == old(self).dual_variable_global_progress
                    + length - remaining,
                self.sum_dual_variables == old(self).sum_dual_variables + (length - remaining)
                    * old(self).sum_grow_speed,
                remaining == length ==> *self == *old(self),
            decreases remaining,
        {
            let max_update_length = dual_module_impl.compute_maximum_update_length(&*self);
            let safe_growth: Weight = match max_update_length.get_none_zero_growth() {
                Some(w) => w,
                None => {
                    return Err(BlossomError::UnexpectedConflicts);
                },
            };
            if safe_growth <= 0 {
                return Err(BlossomError::GrowthStalled);
            }
            let growth: Weight = if remaining < safe_growth {
                remaining
            } else {
                safe_growth
            };
            if !self.grow_fits(growth) {
                return Err(BlossomError::WeightOverflow);
            }
            let ghost rem_pre = remaining as int;
            self.grow(growth, dual_module_impl);
            proof {
                let le: int = length as int;
                let sp: int = old(self).sum_grow_speed as int;
                let g: int = growth as int;
                assert((le - rem_pre) * sp + g * sp == (le - (rem_pre - g)) * sp)
                    by (nonlinear_arith);
            }
            remaining = remaining - growth;
        }
        Ok(())
    }

    /// Runtime walk deciding [`Self::in_subtree`].
    pub fn check_in_subtree(&self, x: NodeIndex, m: NodeIndex) -> (r: bool)
        requires
            self.inv(),
        ensures
            r == self.in_subtree(x as int, m as int),
        decreases self.nodes_length - x,
    {
        if x == m {
            return true;
        }
        if x >= self.nodes_length || x >= self.nodes.len() {
            return false;
        }
        match &self.nodes[x] {
            Some(node) => {
                match node.parent_blossom {
                    Some(p) => {
                        if x < p && p < self.nodes_length {
                            self.check_in_subtree(p, m)
                        } else {
                            false
                        }
                    },
                    None => false,
                }
            },
            None => false,
        }
    }
}

/// A node inside a blossom never moves on its own: a set parent forces the
/// Stay state.
pub proof fn lemma_parent_implies_stay(interface: DualModuleInterface, i: int)
    requires
        interface.inv(),
        interface.is_tracked(i),
        interface.node_at(i).parent_blossom is Some,
    ensures
        interface.node_at(i).grow_state is Stay,
{
    assert(interface.node_inv(i));
}

/// Every circle member of a tracked blossom is itself tracked, points back
/// at the blossom, and stays.
pub proof fn lemma_blossom_members_stay(interface: DualModuleInterface, b: int, j: int)
    requires
        interface.inv(),
        interface.is_tracked(b),
        interface.node_at(b).class is Blossom,
        0 <= j < interface.node_at(b).spec_circle().len(),
    ensures
        interface.is_tracked(interface.node_at(b).spec_circle()[j] as int),
        interface.node_at(
            interface.node_at(b).spec_circle()[j] as int,
        ).parent_blossom == Some(interface.node_at(b).index),
        interface.node_at(interface.node_at(b).spec_circle()[j] as int).grow_state is Stay,
{
    assert(interface.node_inv(b));
    assert(interface.blossom_inv(b));
    let m = interface.node_at(b).spec_circle()[j] as int;
    assert(interface.node_inv(m));
}

/// The interface's running total always equals the sum of the dual
/// variables of every tracked node.
pub proof fn lemma_sum_dual_variables(interface: DualModuleInterface)
    requires
        interface.inv(),
    ensures
        interface.sum_dual_variables == arena_sum(
            interface.arena(),
            f_dual(interface.dual_variable_global_progress),
        ),
{
}

} // verus!
