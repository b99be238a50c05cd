//! The serial primal module: interprets the dual side's conflicts to build
//! alternating trees, match nodes, form blossoms and expand them, driving
//! the interface until every root rests matched.

use vstd::prelude::*;

use crate::util::NodeIndex;
use crate::util::VertexIndex;
use crate::util::Weight;
use crate::util::BlossomError;
use crate::dual_module::DualModuleInterface;
use crate::dual_module::DualModuleImpl;
use crate::dual_module::DualNodePtr;
use crate::dual_module::DualNodeClass;
use crate::dual_module::DualNodeGrowState;
use crate::dual_module::MaxUpdateLength;
use crate::dual_module::GroupMaxUpdateLength;
use crate::dual_module::ARENA_CAP;
use crate::dual_module::DualNodeV;
use crate::dual_module::DualVariableCache;
use crate::dual_module::node_view;

verus! {

/// What a matched node rests against.
#[derive(Clone, Copy, PartialEq, Eq, Structural, Debug)]
pub enum MatchTarget {
    /// matched with another outermost node
    Peer(NodeIndex),
    /// matched into a virtual (boundary or mirrored) vertex
    VirtualVertex(VertexIndex),
}

/// The primal bookkeeping for one arena slot.
#[derive(Clone, Copy, PartialEq, Eq, Debug)]
pub struct PrimalNodeState {
    /// whether the node stands in an alternating tree
    pub in_tree: bool,
    /// label of the tree, the root's index at the time it formed
    pub tree_root: NodeIndex,
    /// the tree neighbour one step toward the root
    pub tree_parent: Option<NodeIndex>,
    /// whether the node is a "+" (growing) tree node
    pub plus: bool,
    /// descendant on this side of the tight edge to the parent
    pub touch_mine: NodeIndex,
    /// descendant on the parent's side of that tight edge
    pub touch_theirs: NodeIndex,
    /// what the node is matched against, with the descendant through which
    /// it touches
    pub temporary_match: Option<(MatchTarget, NodeIndex)>,
}

impl PrimalNodeState {
    /// A fresh, unmatched, tree-less state.
    pub open spec fn spec_fresh() -> PrimalNodeState {
        PrimalNodeState {
            in_tree: false,
            tree_root: 0,
            tree_parent: None,
            plus: false,
            touch_mine: 0,
            touch_theirs: 0,
            temporary_match: None,
        }
    }

    /// A fresh, unmatched, tree-less state.
    pub fn fresh() -> (r: Self)
        ensures
            r == Self::spec_fresh(),
    {
        PrimalNodeState {
            in_tree: false,
            tree_root: 0,
            tree_parent: None,
            plus: false,
            touch_mine: 0,
            touch_theirs: 0,
            temporary_match: None,
        }
    }
}

/// The serial primal module: one state per arena slot, and the nodes whose
/// mirror matches a later fusion may break.
pub struct PrimalModuleSerial {
    /// per-slot primal state, aligned with the interface arena
    pub nodes: Vec<PrimalNodeState>,
    /// nodes matched into a mirrored vertex, revisited at each fusion
    pub possible_break: Vec<NodeIndex>,
}

/// How many solver iterations are attempted before giving up loudly.
pub const SOLVE_FUEL: usize = 20000;

impl PrimalModuleSerial {
    /// The primal state of a slot, defaulting to fresh beyond the table.
    pub open spec fn spec_state_of(self, i: int) -> PrimalNodeState {
        if 0 <= i < self.nodes@.len() {
            self.nodes@[i]
        } else {
            PrimalNodeState {
                in_tree: false,
                tree_root: 0,
                tree_parent: None,
                plus: false,
                touch_mine: 0,
                touch_theirs: 0,
                temporary_match: None,
            }
        }
    }

    /// An empty module.
    pub fn new_empty() -> (r: Self)
        ensures
            r.nodes@.len() == 0,
            r.possible_break@.len() == 0,
    {
        PrimalModuleSerial { nodes: Vec::new(), possible_break: Vec::new() }
    }

    /// Forgets everything.
    pub fn clear(&mut self) {
        self.nodes = Vec::new();
        self.possible_break = Vec::new();
    }

    /// Grows the state table to the interface's logical length with fresh
    /// entries, touching nothing that exists.
    #[verifier::loop_isolation(false)]
    pub fn sync_length(&mut self, interface: &DualModuleInterface)
        ensures
            final (self).nodes@.len() >= interface.nodes_length,
            final (self).nodes@.len() >= old(self).nodes@.len(),
            forall|j: int|
                0 <= j < old(self).nodes@.len() ==> final (self).nodes@[j] == #[trigger] old(self).nodes@[j],
            forall|j: int|
                old(self).nodes@.len() <= j < final (self).nodes@.len() ==> final(self).nodes@[j] == PrimalNodeState::spec_fresh(),
            final (self).possible_break@ == old(self).possible_break@,
    {
        while self.nodes.len() < interface.nodes_length
            invariant
                self.nodes@.len() >= old(self).nodes@.len(),
                forall|j: int|
                    0 <= j < old(self).nodes@.len() ==> self.nodes@[j] == #[trigger] old(self).nodes@[j],
                forall|j: int|
                    old(self).nodes@.len() <= j < self.nodes@.len() ==> self.nodes@[j]
                        == PrimalNodeState::spec_fresh(),
                self.possible_break@ == old(self).possible_break@,
            decreases interface.nodes_length - self.nodes.len(),
        {
            self.nodes.push(PrimalNodeState::fresh());
        }
    }

    /// Loads one syndrome vertex as a fresh growing dual node; succeeds
    /// exactly when the vertex is fresh and the arena has room.
    pub fn load_syndrome<D: DualModuleImpl>(
        &mut self,
        vertex: VertexIndex,
        interface: &mut DualModuleInterface,
        dual_module: &mut D,
    ) -> (r: Result<(), BlossomError>)
        requires
            old(interface).inv(),
        ensures
            final (interface).inv(),
            r is Ok <==> (old(interface).nodes_length < ARENA_CAP && !old(
                interface,
            ).has_syndrome_vertex(vertex)),
            r is Err ==> *final (interface) == *old(interface) && *final (self) == *old(
                self,
            ),
            r is Ok ==> {
                &&& final (interface).nodes_length == old(interface).nodes_length + 1
                &&& forall|j: int|
                    0 <= j < old(interface).nodes_length ==> final (interface).nodes@[j]
                        == #[trigger] old(interface).nodes@[j]
                &&& final (interface).is_tracked(old(interface).nodes_length as int)
                &&& node_view(
                    final (interface).node_at(old(interface).nodes_length as int),
                ) == (DualNodeV {
                    index: old(interface).nodes_length,
                    is_blossom: false,
                    circle: Seq::empty(),
                    touching: Seq::empty(),
                    syndrome_vertex: vertex,
                    grow_state: DualNodeGrowState::Grow,
                    parent_blossom: None,
                    dual_variable_cache: DualVariableCache {
                        value: 0,
                        progress: old(interface).dual_variable_global_progress,
                    },
                })
                &&& final (self).nodes@.len() >= final (interface).nodes_length
            },
    {
        if interface.nodes_length >= ARENA_CAP {
            return Err(BlossomError::ArenaOverflow);
        }
        if interface.find_syndrome_vertex(vertex) {
            return Err(BlossomError::DuplicateSyndrome(vertex));
        }
        interface.create_syndrome_node(vertex, dual_module);
        self.sync_length(interface);
        Ok(())
    }

    /// Runs growth and conflict resolution until the backend reports
    /// nothing left to do.
    #[verifier::loop_isolation(false)]
    pub fn solve_step_loop<D: DualModuleImpl>(
        &mut self,
        interface: &mut DualModuleInterface,
        dual_module: &mut D,
    ) -> (r: Result<(), BlossomError>)
        requires
            old(interface).inv(),
        ensures
            final (interface).inv(),
    {
        // scale the safety budget with the instance, so only a genuine
        // stall is reported as one
        let scale: usize = if interface.nodes_length < 100000 {
            interface.nodes_length + 1
        } else {
            100000
        };
        proof {
            assert(SOLVE_FUEL * scale <= 2000000000) by (nonlinear_arith)
                requires
                    scale <= 100000,
            ;
        }
        let mut fuel: usize = SOLVE_FUEL * scale;
        while fuel > 0
            invariant
                interface.inv(),
            decreases fuel,
        {
            let group = dual_module.compute_maximum_update_length(&*interface);
            match group.get_none_zero_growth() {
                Some(w) => {
                    if w == i64::MAX {
                        // nothing constrains growth: everything is matched
                        return Ok(());
                    }
                    if w <= 0 {
                        return Err(BlossomError::GrowthStalled);
                    }
                    if !interface.grow_fits(w) {
                        return Err(BlossomError::WeightOverflow);
                    }
                    interface.grow(w, dual_module);
                },
                None => {
                    match self.resolve(group, interface, dual_module) {
                        Ok(()) => {},
                        Err(e) => {
                            return Err(e);
                        },
                    }
                },
            }
            fuel -= 1;
        }
        Err(BlossomError::GrowthStalled)
    }

    /// Resolves every conflict of a group, most urgent first.
    #[verifier::loop_isolation(false)]
    pub fn resolve<D: DualModuleImpl>(
        &mut self,
        group_max_update_length: GroupMaxUpdateLength,
        interface: &mut DualModuleInterface,
        dual_module: &mut D,
    ) -> (r: Result<(), BlossomError>)
        requires
            old(interface).inv(),
            group_max_update_length@.wf(),
            group_max_update_length@.is_conflicts,
        ensures
            final (interface).inv(),
    {
        let mut group = group_max_update_length;
        loop
            invariant
                interface.inv(),
                group@.wf(),
                group@.is_conflicts,
            decreases group@.heap.len() + group@.pending.len(),
        {
            let popped = group.pop();
            match popped {
                Some(event) => {
                    match self.resolve_one(event, interface, dual_module) {
                        Ok(()) => {},
                        Err(e) => {
                            return Err(e);
                        },
                    }
                },
                None => {
                    return Ok(());
                },
            }
        }
    }

    /// Reads the primal state of a slot, defaulting to fresh.
    fn state_of(&self, i: NodeIndex) -> (r: PrimalNodeState)
        ensures
            r == self.spec_state_of(i as int),
    {
        if i < self.nodes.len() {
            self.nodes[i]
        } else {
            PrimalNodeState::fresh()
        }
    }

    /// Writes the primal state of a slot, if it exists.
    fn set_state(&mut self, i: NodeIndex, st: PrimalNodeState)
        ensures
            i < old(self).nodes@.len() ==> final (self).nodes@ == old(self).nodes@.update(
                i as int,
                st,
            ),
            i >= old(self).nodes@.len() ==> final (self).nodes@ == old(self).nodes@,
            final (self).nodes@.len() == old(self).nodes@.len(),
            final (self).possible_break@ == old(self).possible_break@,
    {
        if i < self.nodes.len() {
            self.nodes.set(i, st);
        }
    }

    /// Whether a node is a tracked outermost node of the interface.
    fn is_outer(&self, interface: &DualModuleInterface, i: NodeIndex) -> (r: bool)
        requires
            interface.inv(),
        ensures
            r ==> interface.is_tracked(i as int) && interface.node_at(i as int).parent_blossom
                is None,
    {
        if i >= interface.nodes_length || i >= interface.nodes.len() {
            return false;
        }
        match &interface.nodes[i] {
            Some(node) => node.parent_blossom.is_none(),
            None => false,
        }
    }

    /// The grow state of a tracked node.
    fn grow_state_of(&self, interface: &DualModuleInterface, i: NodeIndex) -> (r:
        DualNodeGrowState)
        requires
            interface.inv(),
            interface.is_tracked(i as int),
        ensures
            r == interface.node_at(i as int).grow_state,
    {
        interface.nodes[i].as_ref().unwrap().grow_state
    }

    /// Resolves one conflict event; stale events are skipped quietly.
    fn resolve_one<D: DualModuleImpl>(
        &mut self,
        event: MaxUpdateLength,
        interface: &mut DualModuleInterface,
        dual_module: &mut D,
    ) -> (r: Result<(), BlossomError>)
        requires
            old(interface).inv(),
        ensures
            final (interface).inv(),
    {
        match event {
            MaxUpdateLength::NonZeroGrow(_) => Ok(()),
            MaxUpdateLength::Conflicting((n1, t1), (n2, t2)) => {
                self.resolve_conflict(n1, t1, n2, t2, interface, dual_module)
            },
            MaxUpdateLength::TouchingVirtual((n, t), (v, _is_mirror)) => {
                if !self.is_outer(interface, n.index) {
                    return Ok(());
                }
                if !matches!(self.grow_state_of(interface, n.index), DualNodeGrowState::Grow) {
                    return Ok(());
                }
                self.augment_path(n.index, t.index, MatchTarget::VirtualVertex(v), interface,
                    dual_module)
            },
            MaxUpdateLength::BlossomNeedExpand(b) => {
                self.resolve_expand(b.index, interface, dual_module)
            },
            MaxUpdateLength::VertexShrinkStop(_) => Ok(()),
        }
    }

    /// Resolves a collision of two growing fronts: match, attach, form a
    /// blossom, or skip when the report is stale.
    fn resolve_conflict<D: DualModuleImpl>(
        &mut self,
        n1: DualNodePtr,
        t1: DualNodePtr,
        n2: DualNodePtr,
        t2: DualNodePtr,
        interface: &mut DualModuleInterface,
        dual_module: &mut D,
    ) -> (r: Result<(), BlossomError>)
        requires
            old(interface).inv(),
        ensures
            final (interface).inv(),
    {
        if n1.index == n2.index {
            return Ok(());
        }
        if !self.is_outer(interface, n1.index) || !self.is_outer(interface, n2.index) {
            return Ok(());
        }
        let g1 = self.grow_state_of(interface, n1.index);
        let g2 = self.grow_state_of(interface, n2.index);
        let grow1 = matches!(g1, DualNodeGrowState::Grow);
        let grow2 = matches!(g2, DualNodeGrowState::Grow);
        if grow1 && grow2 {
            let s1 = self.state_of(n1.index);
            let s2 = self.state_of(n2.index);
            if s1.in_tree && s2.in_tree && s1.tree_root == s2.tree_root {
                return self.make_blossom(n1, t1, n2, t2, interface, dual_module);
            }
            // two separate fronts: augment both trees through the new edge
            match self.augment_path(n1.index, t1.index, MatchTarget::Peer(n2.index), interface,
                dual_module) {
                Ok(()) => {},
                Err(e) => {
                    return Err(e);
                },
            }
            match self.augment_path(n2.index, t2.index, MatchTarget::Peer(n1.index), interface,
                dual_module) {
                Ok(()) => {},
                Err(e) => {
                    return Err(e);
                },
            }
            Ok(())
        } else if grow1 && matches!(g2, DualNodeGrowState::Stay) {
            self.resolve_grow_vs_matched(n1, t1, n2, t2, interface, dual_module)
        } else if grow2 && matches!(g1, DualNodeGrowState::Stay) {
            self.resolve_grow_vs_matched(n2, t2, n1, t1, interface, dual_module)
        } else {
            Ok(())
        }
    }

    /// A growing front hit a matched pair: attach the pair to the tree, or
    /// free a boundary match by augmenting through it.
    fn resolve_grow_vs_matched<D: DualModuleImpl>(
        &mut self,
        n: DualNodePtr,
        t: DualNodePtr,
        m: DualNodePtr,
        tm: DualNodePtr,
        interface: &mut DualModuleInterface,
        dual_module: &mut D,
    ) -> (r: Result<(), BlossomError>)
        requires
            old(interface).inv(),
        ensures
            final (interface).inv(),
    {
        let sm = self.state_of(m.index);
        match sm.temporary_match {
            Some((MatchTarget::Peer(c), m_touch)) => {
                // bring the matched pair into the tree: m turns "-", its
                // peer c turns "+"
                if !self.is_outer(interface, c) || c == n.index {
                    return Ok(());
                }
                // a blossom already at zero dual would be asked to shrink
                // at once: expand it on contact instead, freeing its
                // members and its peer
                if m.index >= interface.nodes_length || m.index >= interface.nodes.len() {
                    return Ok(());
                }
                if interface.nodes[m.index].is_none() {
                    return Ok(());
                }
                proof {
                    assert(interface.is_tracked(m.index as int));
                    assert(interface.node_inv(m.index as int));
                }
                let m_is_zero_blossom = match &interface.nodes[m.index] {
                    Some(node) => matches!(node.class, DualNodeClass::Blossom { .. })
                        && node.get_dual_variable(interface) == 0,
                    None => false,
                };
                if m_is_zero_blossom {
                    return self.expand_matched_blossom(m.index, c, m_touch, interface,
                        dual_module);
                }
                let sc = self.state_of(c);
                let c_touch: NodeIndex = match sc.temporary_match {
                    Some((_, ct)) => ct,
                    None => c,
                };
                let sn = self.state_of(n.index);
                let root: NodeIndex = if sn.in_tree {
                    sn.tree_root
                } else {
                    n.index
                };
                if !sn.in_tree {
                    let mut sn2 = sn;
                    sn2.in_tree = true;
                    sn2.tree_root = root;
                    sn2.tree_parent = None;
                    sn2.plus = true;
                    self.set_state(n.index, sn2);
                }
                let mut sm2 = sm;
                sm2.in_tree = true;
                sm2.tree_root = root;
                sm2.tree_parent = Some(n.index);
                sm2.plus = false;
                sm2.touch_mine = tm.index;
                sm2.touch_theirs = t.index;
                self.set_state(m.index, sm2);
                let mut sc2 = sc;
                sc2.in_tree = true;
                sc2.tree_root = root;
                sc2.tree_parent = Some(m.index);
                sc2.plus = true;
                sc2.touch_mine = c_touch;
                sc2.touch_theirs = m_touch;
                self.set_state(c, sc2);
                if !self.try_set_grow_state(interface, dual_module, m.index,
                    DualNodeGrowState::Shrink) {
                    return Err(BlossomError::Corrupted);
                }
                if !self.try_set_grow_state(interface, dual_module, c,
                    DualNodeGrowState::Grow) {
                    return Err(BlossomError::Corrupted);
                }
                Ok(())
            },
            Some((MatchTarget::VirtualVertex(_), _)) => {
                // the boundary frees its side: n matches m directly
                match self.augment_path(n.index, t.index, MatchTarget::Peer(m.index), interface,
                    dual_module) {
                    Ok(()) => {},
                    Err(e) => {
                        return Err(e);
                    },
                }
                let mut sm2 = self.state_of(m.index);
                sm2.temporary_match = Some((MatchTarget::Peer(n.index), tm.index));
                sm2.in_tree = false;
                sm2.tree_parent = None;
                self.set_state(m.index, sm2);
                Ok(())
            },
            None => Ok(()),
        }
    }

    /// Expands a matched blossom whose dual variable is zero: the member
    /// holding the matched touch takes the match over, and the even rest of
    /// the circle pairs up along its tight edges, so nothing comes loose.
    #[verifier::loop_isolation(false)]
    fn expand_matched_blossom<D: DualModuleImpl>(
        &mut self,
        b: NodeIndex,
        peer: NodeIndex,
        exit_touch: NodeIndex,
        interface: &mut DualModuleInterface,
        dual_module: &mut D,
    ) -> (r: Result<(), BlossomError>)
        requires
            old(interface).inv(),
        ensures
            final (interface).inv(),
    {
        if b >= interface.nodes_length || b >= interface.nodes.len() {
            return Err(BlossomError::Corrupted);
        }
        proof {
            assert(interface.nodes_length <= interface.nodes@.len());
        }
        let (circle, touching) = match &interface.nodes[b] {
            Some(node) => {
                match &node.class {
                    DualNodeClass::Blossom { nodes_circle, touching_children } => {
                        let mut cc: Vec<NodeIndex> = Vec::new();
                        let mut tt: Vec<(NodeIndex, NodeIndex)> = Vec::new();
                        let mut q: usize = 0;
                        while q < nodes_circle.len()
                            decreases nodes_circle@.len() - q,
                        {
                            cc.push(nodes_circle[q]);
                            q += 1;
                        }
                        let mut q2: usize = 0;
                        while q2 < touching_children.len()
                            decreases touching_children@.len() - q2,
                        {
                            tt.push(touching_children[q2]);
                            q2 += 1;
                        }
                        (cc, tt)
                    },
                    DualNodeClass::SyndromeVertex { .. } => {
                        return Err(BlossomError::Corrupted);
                    },
                }
            },
            None => {
                return Err(BlossomError::Corrupted);
            },
        };
        let k = circle.len();
        if k == 0 || k != touching.len() || k % 2 == 0 || k >= 1000000000 {
            return Err(BlossomError::Corrupted);
        }
        // release the pair and retire the blossom
        let mut sc2 = self.state_of(peer);
        let peer_touch: NodeIndex = match sc2.temporary_match {
            Some((_, ct)) => ct,
            None => peer,
        };
        sc2.temporary_match = None;
        self.set_state(peer, sc2);
        self.set_state(b, PrimalNodeState::fresh());
        if !self.try_set_grow_state(interface, dual_module, b, DualNodeGrowState::Stay) {
            return Err(BlossomError::Corrupted);
        }
        if b >= interface.nodes_length || b >= interface.nodes.len()
            || interface.nodes[b].is_none() {
            return Err(BlossomError::Corrupted);
        }
        proof {
            assert(interface.is_tracked(b as int));
            assert(interface.node_inv(b as int));
        }
        let ok = match &interface.nodes[b] {
            Some(node) => matches!(node.class, DualNodeClass::Blossom { .. })
                && node.parent_blossom.is_none() && node.get_dual_variable(interface) == 0,
            None => false,
        };
        if !ok {
            return Err(BlossomError::Corrupted);
        }
        interface.expand_blossom(DualNodePtr { index: b }, dual_module);
        // the member beneath the matched touch takes the match over
        if exit_touch >= interface.nodes_length || exit_touch >= interface.nodes.len()
            || interface.nodes[exit_touch].is_none() {
            return Err(BlossomError::Corrupted);
        }
        proof {
            assert(interface.is_tracked(exit_touch as int));
        }
        let exit_ptr = DualNodePtr { index: exit_touch };
        let exit_member = exit_ptr.get_ancestor_blossom(interface).index;
        let mut exit_at: usize = k;
        let mut q3: usize = 0;
        while q3 < k
            invariant
                k == circle@.len(),
                exit_at <= k,
            decreases k - q3,
        {
            if circle[q3] == exit_member {
                exit_at = q3;
            }
            q3 += 1;
        }
        if exit_at == k {
            return Err(BlossomError::Corrupted);
        }
        let mut sx = self.state_of(exit_member);
        sx.temporary_match = Some((MatchTarget::Peer(peer), exit_touch));
        sx.in_tree = false;
        sx.tree_parent = None;
        self.set_state(exit_member, sx);
        let mut sp = self.state_of(peer);
        sp.temporary_match = Some((MatchTarget::Peer(exit_member), peer_touch));
        self.set_state(peer, sp);
        if !self.try_set_grow_state(interface, dual_module, exit_member,
            DualNodeGrowState::Stay) {
            return Err(BlossomError::Corrupted);
        }
        // the remaining even arc pairs up along its tight circle edges
        let mut step: usize = 1;
        while step < k
            invariant
                interface.inv(),
                k == circle@.len(),
                k == touching@.len(),
                exit_at < k,
                k < 1000000000,
            decreases k - step,
        {
            if step + 1 >= k {
                break ;
            }
            let i1 = (exit_at + step) % k;
            let i2 = (exit_at + step + 1) % k;
            let a = circle[i1];
            let bb = circle[i2];
            let a_touch = touching[i1].1;
            let b_touch = touching[i2].0;
            let mut sa = self.state_of(a);
            sa.temporary_match = Some((MatchTarget::Peer(bb), a_touch));
            sa.in_tree = false;
            sa.tree_parent = None;
            self.set_state(a, sa);
            let mut sb = self.state_of(bb);
            sb.temporary_match = Some((MatchTarget::Peer(a), b_touch));
            sb.in_tree = false;
            sb.tree_parent = None;
            self.set_state(bb, sb);
            if !self.try_set_grow_state(interface, dual_module, a, DualNodeGrowState::Stay) {
                return Err(BlossomError::Corrupted);
            }
            if !self.try_set_grow_state(interface, dual_module, bb, DualNodeGrowState::Stay) {
                return Err(BlossomError::Corrupted);
            }
            step += 2;
        }
        Ok(())
    }

    /// Sets a root's grow state after checking the preconditions at
    /// runtime.
    fn try_set_grow_state<D: DualModuleImpl>(
        &self,
        interface: &mut DualModuleInterface,
        dual_module: &mut D,
        i: NodeIndex,
        gs: DualNodeGrowState,
    ) -> (r: bool)
        requires
            old(interface).inv(),
        ensures
            final (interface).inv(),
            final (interface).nodes_length == old(interface).nodes_length,
            final (interface).nodes@.len() == old(interface).nodes@.len(),
            r ==> final (interface).is_tracked(i as int),
    {
        if i >= interface.nodes_length || i >= interface.nodes.len() {
            return false;
        }
        let ok = match &interface.nodes[i] {
            Some(node) => node.parent_blossom.is_none(),
            None => false,
        };
        if !ok {
            return false;
        }
        let ptr = DualNodePtr { index: i };
        interface.set_grow_state(&ptr, gs, dual_module);
        true
    }

    /// Matches `n` against `target` and flips its alternating tree: every
    /// "-" node on the way up rematches with its "+" parent, and the whole
    /// tree comes to rest.
    #[verifier::loop_isolation(false)]
    fn augment_path<D: DualModuleImpl>(
        &mut self,
        n: NodeIndex,
        touch: NodeIndex,
        target: MatchTarget,
        interface: &mut DualModuleInterface,
        dual_module: &mut D,
    ) -> (r: Result<(), BlossomError>)
        requires
            old(interface).inv(),
        ensures
            final (interface).inv(),
    {
        let sn = self.state_of(n);
        let mut st = sn;
        st.temporary_match = Some((target, touch));
        self.set_state(n, st);
        if matches!(target, MatchTarget::VirtualVertex(_)) {
            self.possible_break.push(n);
        }
        if !sn.in_tree {
            if !self.try_set_grow_state(interface, dual_module, n, DualNodeGrowState::Stay) {
                return Err(BlossomError::Corrupted);
            }
            return Ok(());
        }
        // walk up, rematching "-" nodes with their "+" parents; a sound
        // tree is shorter than the table, so running out means corruption
        let mut cur: NodeIndex = n;
        let mut fuel: usize = if self.nodes.len() < usize::MAX {
            self.nodes.len() + 1
        } else {
            usize::MAX
        };
        while fuel > 0
            invariant
                interface.inv(),
            decreases fuel,
        {
            let sc = self.state_of(cur);
            match sc.tree_parent {
                Some(minus) => {
                    let sm = self.state_of(minus);
                    match sm.tree_parent {
                        Some(plus) => {
                            let mut sm2 = sm;
                            sm2.temporary_match = Some(
                                (MatchTarget::Peer(plus), sm.touch_mine),
                            );
                            self.set_state(minus, sm2);
                            let mut sp2 = self.state_of(plus);
                            sp2.temporary_match = Some(
                                (MatchTarget::Peer(minus), sm.touch_theirs),
                            );
                            self.set_state(plus, sp2);
                            cur = plus;
                        },
                        None => {
                            // a "-" node without a parent: broken tree
                            return Err(BlossomError::Corrupted);
                        },
                    }
                },
                None => {
                    break ;
                },
            }
            fuel -= 1;
        }
        if fuel == 0 {
            return Err(BlossomError::Corrupted);
        }
        self.rest_tree(sn.tree_root, interface, dual_module)
    }

    /// Brings every node of a tree to rest: out of the tree and at Stay.
    #[verifier::loop_isolation(false)]
    fn rest_tree<D: DualModuleImpl>(
        &mut self,
        root_label: NodeIndex,
        interface: &mut DualModuleInterface,
        dual_module: &mut D,
    ) -> (r: Result<(), BlossomError>)
        requires
            old(interface).inv(),
        ensures
            final (interface).inv(),
    {
        let mut i: usize = 0;
        while i < self.nodes.len()
            invariant
                interface.inv(),
            decreases self.nodes@.len() - i,
        {
            let st = self.nodes[i];
            if st.in_tree && st.tree_root == root_label {
                let mut st2 = st;
                st2.in_tree = false;
                st2.tree_parent = None;
                self.set_state(i, st2);
                if self.is_outer(interface, i) {
                    // matched nodes come to rest; an unmatched one, such as
                    // the root of a tree dissolved by an expansion, must
                    // keep growing
                    let gs = if st.temporary_match.is_some() {
                        DualNodeGrowState::Stay
                    } else {
                        DualNodeGrowState::Grow
                    };
                    if !self.try_set_grow_state(interface, dual_module, i, gs) {
                        return Err(BlossomError::Corrupted);
                    }
                }
            }
            i += 1;
        }
        Ok(())
    }

    /// Collects the tree path from `n` up to the root, as node indices.
    #[verifier::loop_isolation(false)]
    fn tree_path(&self, n: NodeIndex) -> (r: Option<Vec<NodeIndex>>) {
        let mut path: Vec<NodeIndex> = Vec::new();
        let mut cur: NodeIndex = n;
        let mut fuel: usize = if self.nodes.len() < usize::MAX {
            self.nodes.len() + 1
        } else {
            usize::MAX
        };
        while fuel > 0
            decreases fuel,
        {
            path.push(cur);
            match self.state_of(cur).tree_parent {
                Some(p) => {
                    cur = p;
                },
                None => {
                    return Some(path);
                },
            }
            fuel -= 1;
        }
        None
    }

    /// Whether `x` occurs in `v`, and where.
    #[verifier::loop_isolation(false)]
    fn find_in(v: &Vec<NodeIndex>, x: NodeIndex) -> (r: Option<usize>)
        ensures
            r matches Some(i) ==> i < v@.len() && v@[i as int] == x,
    {
        let mut i: usize = 0;
        while i < v.len()
            decreases v@.len() - i,
        {
            if v[i] == x {
                return Some(i);
            }
            i += 1;
        }
        None
    }

    /// Two "+" nodes of one tree collided: the cycle through their lowest
    /// common ancestor becomes a blossom.
    #[verifier::loop_isolation(false)]
    #[verifier::rlimit(100)]
    fn make_blossom<D: DualModuleImpl>(
        &mut self,
        n1: DualNodePtr,
        t1: DualNodePtr,
        n2: DualNodePtr,
        t2: DualNodePtr,
        interface: &mut DualModuleInterface,
        dual_module: &mut D,
    ) -> (r: Result<(), BlossomError>)
        requires
            old(interface).inv(),
        ensures
            final (interface).inv(),
    {
        let path1 = match self.tree_path(n1.index) {
            Some(p) => p,
            None => {
                return Err(BlossomError::Corrupted);
            },
        };
        let path2 = match self.tree_path(n2.index) {
            Some(p) => p,
            None => {
                return Err(BlossomError::Corrupted);
            },
        };
        // the lowest common ancestor: first entry of path2 that path1 holds
        let mut lca_in_1: usize = 0;
        let mut lca_in_2: usize = 0;
        let mut found: bool = false;
        let mut j: usize = 0;
        while j < path2.len()
            invariant
                j <= path2@.len(),
                found ==> lca_in_1 < path1@.len() && lca_in_2 < path2@.len(),
            decreases path2@.len() - j,
        {
            match Self::find_in(&path1, path2[j]) {
                Some(at) => {
                    lca_in_1 = at;
                    lca_in_2 = j;
                    found = true;
                },
                None => {},
            }
            if found {
                break ;
            }
            j += 1;
        }
        if !found {
            return Err(BlossomError::Corrupted);
        }
        // circle: n1 up to the ancestor, then back down to n2
        let mut circle: Vec<DualNodePtr> = Vec::new();
        let mut touching: Vec<(DualNodePtr, DualNodePtr)> = Vec::new();
        let mut k: usize = 0;
        while k <= lca_in_1
            invariant
                k <= lca_in_1,
                lca_in_1 < path1@.len(),
                lca_in_2 < path2@.len(),
                circle@.len() == touching@.len(),
            decreases lca_in_1 - k,
        {
            let x = path1[k];
            let sx = self.state_of(x);
            let prev_touch: NodeIndex = if k == 0 {
                t1.index
            } else {
                self.state_of(path1[k - 1]).touch_theirs
            };
            let next_touch: NodeIndex = if k == lca_in_1 {
                // toward the second path
                if lca_in_2 == 0 {
                    t2.index
                } else {
                    self.state_of(path2[lca_in_2 - 1]).touch_theirs
                }
            } else {
                sx.touch_mine
            };
            circle.push(DualNodePtr { index: x });
            touching.push(
                (DualNodePtr { index: prev_touch }, DualNodePtr { index: next_touch }),
            );
            if k == lca_in_1 {
                break ;
            }
            k += 1;
        }
        let mut k2: usize = lca_in_2;
        while k2 > 0
            invariant
                k2 <= lca_in_2,
                lca_in_2 < path2@.len(),
                circle@.len() == touching@.len(),
            decreases k2,
        {
            let x = path2[k2 - 1];
            let sx = self.state_of(x);
            let prev_touch: NodeIndex = sx.touch_mine;
            let next_touch: NodeIndex = if k2 - 1 == 0 {
                t2.index
            } else {
                self.state_of(path2[k2 - 2]).touch_theirs
            };
            circle.push(DualNodePtr { index: x });
            touching.push(
                (DualNodePtr { index: next_touch }, DualNodePtr { index: prev_touch }),
            );
            k2 -= 1;
        }
        // runtime-check everything create_blossom demands
        if circle.len() == 0 || interface.nodes_length >= ARENA_CAP {
            return Err(BlossomError::Corrupted);
        }
        let mut ji: usize = 0;
        while ji < circle.len()
            invariant
                circle@.len() == touching@.len(),
                interface.inv(),
                forall|q: int|
                    0 <= q < ji ==> {
                        let mq = (#[trigger] circle@[q]).index as int;
                        &&& interface.is_tracked(mq)
                        &&& interface.node_at(mq).parent_blossom is None
                        &&& interface.node_at(mq).grow_state == (if q % 2 == 0 {
                            DualNodeGrowState::Grow
                        } else {
                            DualNodeGrowState::Shrink
                        })
                        &&& if interface.node_at(mq).class is SyndromeVertex {
                            touching@[q] == (circle@[q], circle@[q])
                        } else {
                            &&& interface.is_tracked(touching@[q].0.index as int)
                            &&& interface.is_tracked(touching@[q].1.index as int)
                            &&& interface.in_subtree(touching@[q].0.index as int, mq)
                            &&& interface.in_subtree(touching@[q].1.index as int, mq)
                        }
                    },
            decreases circle@.len() - ji,
        {
            let ptr = circle[ji];
            if !self.is_outer(interface, ptr.index) {
                return Err(BlossomError::Corrupted);
            }
            let gs = self.grow_state_of(interface, ptr.index);
            let expected_grow: bool = ji % 2 == 0;
            let gs_ok = if expected_grow {
                matches!(gs, DualNodeGrowState::Grow)
            } else {
                matches!(gs, DualNodeGrowState::Shrink)
            };
            if !gs_ok {
                return Err(BlossomError::Corrupted);
            }
            let is_syndrome = match &interface.nodes[ptr.index] {
                Some(node) => matches!(node.class, DualNodeClass::SyndromeVertex { .. }),
                None => false,
            };
            if is_syndrome {
                let pair = (ptr, ptr);
                touching.set(ji, pair);
            } else {
                let (q0, q1) = touching[ji];
                if !interface.check_ptr_belonging(&q0) || !interface.check_ptr_belonging(&q1) {
                    return Err(BlossomError::Corrupted);
                }
                if !interface.check_in_subtree(q0.index, ptr.index) {
                    return Err(BlossomError::Corrupted);
                }
                if !interface.check_in_subtree(q1.index, ptr.index) {
                    return Err(BlossomError::Corrupted);
                }
            }
            ji += 1;
        }
        // distinctness
        let mut a: usize = 0;
        while a < circle.len()
            invariant
                interface.inv(),
                circle@.len() == touching@.len(),
                forall|q1: int, q2: int|
                    0 <= q1 < q2 < circle@.len() && q2 < a ==> (#[trigger] circle@[q1]).index
                        != (#[trigger] circle@[q2]).index,
                forall|q: int|
                    0 <= q < circle@.len() ==> {
                        let mq = (#[trigger] circle@[q]).index as int;
                        &&& interface.is_tracked(mq)
                        &&& interface.node_at(mq).parent_blossom is None
                        &&& interface.node_at(mq).grow_state == (if q % 2 == 0 {
                            DualNodeGrowState::Grow
                        } else {
                            DualNodeGrowState::Shrink
                        })
                        &&& if interface.node_at(mq).class is SyndromeVertex {
                            touching@[q] == (circle@[q], circle@[q])
                        } else {
                            &&& interface.is_tracked(touching@[q].0.index as int)
                            &&& interface.is_tracked(touching@[q].1.index as int)
                            &&& interface.in_subtree(touching@[q].0.index as int, mq)
                            &&& interface.in_subtree(touching@[q].1.index as int, mq)
                        }
                    },
            decreases circle@.len() - a,
        {
            let mut b: usize = 0;
            while b < a
                invariant
                    a < circle@.len(),
                    forall|q1: int|
                        0 <= q1 < b ==> (#[trigger] circle@[q1]).index != circle@[a as
                            int].index,
                decreases a - b,
            {
                if circle[b].index == circle[a].index {
                    return Err(BlossomError::Corrupted);
                }
                b += 1;
            }
            a += 1;
        }
        let root_label = self.state_of(n1.index).tree_root;
        let lca = circle[0].index;
        let lca_node = path1[lca_in_1];
        let blossom = interface.create_blossom(circle, touching, dual_module);
        self.sync_length(interface);
        // the blossom takes the ancestor's place in the tree
        let s_lca = self.state_of(lca_node);
        let mut sb = PrimalNodeState::fresh();
        sb.in_tree = true;
        sb.tree_root = root_label;
        sb.tree_parent = s_lca.tree_parent;
        sb.plus = true;
        sb.touch_mine = s_lca.touch_mine;
        sb.touch_theirs = s_lca.touch_theirs;
        self.set_state(blossom.index, sb);
        // members leave the primal bookkeeping; children point at the
        // blossom instead
        let mut i3: usize = 0;
        while i3 < self.nodes.len()
            invariant
                interface.inv(),
            decreases self.nodes@.len() - i3,
        {
            let st = self.nodes[i3];
            if i3 != blossom.index && st.in_tree && st.tree_root == root_label {
                match st.tree_parent {
                    Some(p) => {
                        if !self.is_outer(interface, i3) {
                            // a swallowed member: forget its state
                            self.set_state(i3, PrimalNodeState::fresh());
                        } else if !self.is_outer(interface, p) {
                            // its old parent went into the blossom
                            let mut st2 = st;
                            st2.tree_parent = Some(blossom.index);
                            self.set_state(i3, st2);
                        }
                    },
                    None => {
                        if !self.is_outer(interface, i3) {
                            self.set_state(i3, PrimalNodeState::fresh());
                        }
                    },
                }
            }
            i3 += 1;
        }
        // the ancestor's old "-" parent rematches against the blossom
        match sb.tree_parent {
            Some(p) => {
                let sp = self.state_of(p);
                match sp.temporary_match {
                    Some((MatchTarget::Peer(old_peer), pt)) => {
                        if !self.is_outer(interface, old_peer) {
                            let mut sp2 = sp;
                            sp2.temporary_match = Some((MatchTarget::Peer(blossom.index), pt));
                            self.set_state(p, sp2);
                        }
                    },
                    _ => {},
                }
            },
            None => {},
        }
        Ok(())
    }

    /// A shrinking blossom reached zero: expand it, freeing its members,
    /// and let the tree it stood in rest.
    fn resolve_expand<D: DualModuleImpl>(
        &mut self,
        b: NodeIndex,
        interface: &mut DualModuleInterface,
        dual_module: &mut D,
    ) -> (r: Result<(), BlossomError>)
        requires
            old(interface).inv(),
        ensures
            final (interface).inv(),
    {
        if !self.is_outer(interface, b) {
            return Ok(());
        }
        let is_blossom = match &interface.nodes[b] {
            Some(node) => matches!(node.class, DualNodeClass::Blossom { .. }),
            None => false,
        };
        if !is_blossom {
            return Ok(());
        }
        if !matches!(self.grow_state_of(interface, b), DualNodeGrowState::Shrink) {
            return Ok(());
        }
        proof {
            assert(interface.node_inv(b as int));
        }
        let y: Weight = interface.nodes[b].as_ref().unwrap().get_dual_variable(interface);
        if y != 0 {
            return Ok(());
        }
        let sb = self.state_of(b);
        // let the tree rest first, so only roots keep moving
        if sb.in_tree {
            match self.rest_tree(sb.tree_root, interface, dual_module) {
                Ok(()) => {},
                Err(e) => {
                    return Err(e);
                },
            }
        }
        // the blossom's own match or tree links dissolve
        match sb.temporary_match {
            Some((MatchTarget::Peer(c), _)) => {
                let mut sc2 = self.state_of(c);
                sc2.temporary_match = None;
                self.set_state(c, sc2);
                if self.is_outer(interface, c) {
                    if !self.try_set_grow_state(interface, dual_module, c,
                        DualNodeGrowState::Grow) {
                        return Err(BlossomError::Corrupted);
                    }
                }
            },
            _ => {},
        }
        self.set_state(b, PrimalNodeState::fresh());
        if !self.try_set_grow_state(interface, dual_module, b, DualNodeGrowState::Stay) {
            return Err(BlossomError::Corrupted);
        }
        proof {
            assert(interface.node_inv(b as int));
        }
        let still_blossom = match &interface.nodes[b] {
            Some(node) => matches!(node.class, DualNodeClass::Blossom { .. }),
            None => false,
        };
        let dual_zero = match &interface.nodes[b] {
            Some(node) => node.get_dual_variable(interface) == 0,
            None => false,
        };
        let outermost = match &interface.nodes[b] {
            Some(node) => node.parent_blossom.is_none(),
            None => false,
        };
        if !(still_blossom && dual_zero && outermost) {
            return Err(BlossomError::Corrupted);
        }
        interface.expand_blossom(DualNodePtr { index: b }, dual_module);
        Ok(())
    }

    /// After a fusion, clears every temporary match that rested on a
    /// mirrored vertex this unit now owns, setting the freed node growing
    /// again; matches on vertices owned higher up stay listed for later
    /// parents.
    #[verifier::loop_isolation(false)]
    pub fn break_matching_with_mirror<D: DualModuleImpl>(
        &mut self,
        unit_index: usize,
        vertex_to_owning_unit: &Vec<usize>,
        interface: &mut DualModuleInterface,
        dual_module: &mut D,
    ) -> (r: Result<(), BlossomError>)
        requires
            old(interface).inv(),
        ensures
            final (interface).inv(),
            final (self).nodes@.len() == old(self).nodes@.len(),
            r is Ok ==> forall|q: int|
                0 <= q < final (self).possible_break@.len() ==> (#[trigger] final(self).spec_state_of(
                    final (self).possible_break@[q] as int,
                ).temporary_match matches Some((target, _)) && (target matches
                    MatchTarget::VirtualVertex(v) && !(v < vertex_to_owning_unit@.len()
                    && vertex_to_owning_unit@[v as int] == unit_index))),
    {
        let mut work: Vec<NodeIndex> = Vec::new();
        let mut k0: usize = 0;
        while k0 < self.possible_break.len()
            decreases self.possible_break@.len() - k0,
        {
            work.push(self.possible_break[k0]);
            k0 += 1;
        }
        self.possible_break = Vec::new();
        let mut k: usize = 0;
        while k < work.len()
            invariant
                interface.inv(),
                self.nodes@.len() == old(self).nodes@.len(),
                forall|q: int|
                    0 <= q < self.possible_break@.len() ==> (#[trigger] self.spec_state_of(
                        self.possible_break@[q] as int,
                    ).temporary_match matches Some((target, _)) && (target matches
                        MatchTarget::VirtualVertex(v) && !(v < vertex_to_owning_unit@.len()
                        && vertex_to_owning_unit@[v as int] == unit_index))),
            decreases work@.len() - k,
        {
            let ni = work[k];
            let st = self.state_of(ni);
            match st.temporary_match {
                Some((MatchTarget::VirtualVertex(v), _)) => {
                    let owned_here = v < vertex_to_owning_unit.len()
                        && vertex_to_owning_unit[v] == unit_index;
                    if owned_here {
                        let mut st2 = st;
                        st2.temporary_match = None;
                        let ghost before = *self;
                        self.set_state(ni, st2);
                        proof {
                            assert forall|q: int|
                                0 <= q < self.possible_break@.len() implies (
                            #[trigger] self.spec_state_of(
                                self.possible_break@[q] as int,
                            ).temporary_match matches Some((target, _)) && (target matches
                                MatchTarget::VirtualVertex(v2) && !(v2
                                < vertex_to_owning_unit@.len() && vertex_to_owning_unit@[v2 as
                                int] == unit_index))) by {
                                // a kept entry holds a foreign match, so the
                                // slot just cleared cannot be one of them
                                assert(before.spec_state_of(
                                    before.possible_break@[q] as int,
                                ).temporary_match matches Some((t2, _)) && t2 matches
                                    MatchTarget::VirtualVertex(_));
                                assert(self.possible_break@[q] != ni);
                            }
                        }
                        if !self.try_set_grow_state(interface, dual_module, ni,
                            DualNodeGrowState::Grow) {
                            return Err(BlossomError::Corrupted);
                        }
                    } else {
                        let ghost before_push = *self;
                        self.possible_break.push(ni);
                        proof {
                            assert forall|q: int|
                                0 <= q < self.possible_break@.len() implies (
                            #[trigger] self.spec_state_of(
                                self.possible_break@[q] as int,
                            ).temporary_match matches Some((target, _)) && (target matches
                                MatchTarget::VirtualVertex(v2) && !(v2
                                < vertex_to_owning_unit@.len() && vertex_to_owning_unit@[v2 as
                                int] == unit_index))) by {
                                if q == self.possible_break@.len() - 1 {
                                    assert(self.possible_break@[q] == ni);
                                    assert(self.spec_state_of(ni as int) == st);
                                } else {
                                    assert(self.possible_break@[q]
                                        == before_push.possible_break@[q]);
                                    assert(before_push.spec_state_of(
                                        before_push.possible_break@[q] as int,
                                    ).temporary_match matches Some((t2, _)) && t2 matches
                                        MatchTarget::VirtualVertex(_));
                                }
                            }
                        }
                    }
                },
                _ => {},
            }
            k += 1;
        }
        Ok(())
    }

    /// The matched pairs this module has settled on: one entry per slot
    /// with a temporary match, carrying the target and the touching
    /// descendant, in slot order.
    #[verifier::loop_isolation(false)]
    pub fn intermediate_matching(&self) -> (r: Vec<(NodeIndex, MatchTarget, NodeIndex)>)
        ensures
            r@ == matching_view(self.nodes@),
    {
        let mut r: Vec<(NodeIndex, MatchTarget, NodeIndex)> = Vec::new();
        let mut i: usize = 0;
        while i < self.nodes.len()
            invariant
                i <= self.nodes@.len(),
                r@ == matching_view(self.nodes@.take(i as int)),
            decreases self.nodes@.len() - i,
        {
            match self.nodes[i].temporary_match {
                Some((target, touch)) => {
                    r.push((i, target, touch));
                },
                None => {},
            }
            proof {
                assert(self.nodes@.take(i as int + 1).drop_last() =~= self.nodes@.take(
                    i as int,
                ));
                assert(self.nodes@.take(i as int + 1).last() == self.nodes@[i as int]);
            }
            i += 1;
        }
        proof {
            assert(self.nodes@.take(self.nodes@.len() as int) =~= self.nodes@);
        }
        r
    }

    /// Appends rebased copies of two children's states, matching the order
    /// the interface fuse appends their arenas in.
    #[verifier::loop_isolation(false)]
    pub fn fuse(&mut self, left: &Self, right: &Self, bias_left: usize, bias_right: usize)
        ensures
            final (self).nodes@ == old(self).nodes@ + left.nodes@.map_values(
                |st: PrimalNodeState| spec_rebased_state(st, bias_left),
            ) + right.nodes@.map_values(
                |st: PrimalNodeState| spec_rebased_state(st, bias_right),
            ),
            final (self).possible_break@ == old(self).possible_break@
                + left.possible_break@.map_values(
                |x: NodeIndex| spec_shift_index(x, bias_left),
            ) + right.possible_break@.map_values(
                |x: NodeIndex| spec_shift_index(x, bias_right),
            ),
    {
        let ghost left_states = left.nodes@.map_values(
            |st: PrimalNodeState| spec_rebased_state(st, bias_left),
        );
        let ghost right_states = right.nodes@.map_values(
            |st: PrimalNodeState| spec_rebased_state(st, bias_right),
        );
        let mut k: usize = 0;
        while k < left.nodes.len()
            invariant
                k <= left.nodes@.len(),
                self.nodes@ == old(self).nodes@ + left_states.take(k as int),
                self.possible_break@ == old(self).possible_break@,
            decreases left.nodes@.len() - k,
        {
            self.nodes.push(rebase_state(&left.nodes[k], bias_left));
            proof {
                assert(self.nodes@ =~= old(self).nodes@ + left_states.take(k as int + 1));
            }
            k += 1;
        }
        proof {
            assert(left_states.take(left.nodes@.len() as int) =~= left_states);
        }
        let mut k2: usize = 0;
        while k2 < right.nodes.len()
            invariant
                k2 <= right.nodes@.len(),
                self.nodes@ == old(self).nodes@ + left_states + right_states.take(k2 as int),
                self.possible_break@ == old(self).possible_break@,
            decreases right.nodes@.len() - k2,
        {
            self.nodes.push(rebase_state(&right.nodes[k2], bias_right));
            proof {
                assert(self.nodes@ =~= old(self).nodes@ + left_states + right_states.take(
                    k2 as int + 1,
                ));
            }
            k2 += 1;
        }
        proof {
            assert(right_states.take(right.nodes@.len() as int) =~= right_states);
        }
        let ghost left_breaks = left.possible_break@.map_values(
            |x: NodeIndex| spec_shift_index(x, bias_left),
        );
        let ghost right_breaks = right.possible_break@.map_values(
            |x: NodeIndex| spec_shift_index(x, bias_right),
        );
        let mut k3: usize = 0;
        while k3 < left.possible_break.len()
            invariant
                k3 <= left.possible_break@.len(),
                self.nodes@ == old(self).nodes@ + left_states + right_states,
                self.possible_break@ == old(self).possible_break@ + left_breaks.take(
                    k3 as int,
                ),
            decreases left.possible_break@.len() - k3,
        {
            let x = left.possible_break[k3];
            let shifted: NodeIndex = if x <= usize::MAX - bias_left {
                x + bias_left
            } else {
                x
            };
            self.possible_break.push(shifted);
            proof {
                assert(self.possible_break@ =~= old(self).possible_break@ + left_breaks.take(
                    k3 as int + 1,
                ));
            }
            k3 += 1;
        }
        proof {
            assert(left_breaks.take(left.possible_break@.len() as int) =~= left_breaks);
        }
        let mut k4: usize = 0;
        while k4 < right.possible_break.len()
            invariant
                k4 <= right.possible_break@.len(),
                self.nodes@ == old(self).nodes@ + left_states + right_states,
                self.possible_break@ == old(self).possible_break@ + left_breaks
                    + right_breaks.take(k4 as int),
            decreases right.possible_break@.len() - k4,
        {
            let x = right.possible_break[k4];
            let shifted: NodeIndex = if x <= usize::MAX - bias_right {
                x + bias_right
            } else {
                x
            };
            self.possible_break.push(shifted);
            proof {
                assert(self.possible_break@ =~= old(self).possible_break@ + left_breaks
                    + right_breaks.take(k4 as int + 1));
            }
            k4 += 1;
        }
        proof {
            assert(right_breaks.take(right.possible_break@.len() as int) =~= right_breaks);
        }
    }
}

/// The matched entries of a state table, in slot order: each slot with a
/// temporary match contributes its index, target and touching descendant.
pub open spec fn matching_view(s: Seq<PrimalNodeState>) -> Seq<
    (NodeIndex, MatchTarget, NodeIndex),
>
    decreases s.len(),
{
    if s.len() == 0 {
        Seq::empty()
    } else {
        matching_view(s.drop_last()) + (match s.last().temporary_match {
            Some((target, touch)) => seq![(((s.len() - 1) as NodeIndex), target, touch)],
            None => Seq::empty(),
        })
    }
}

/// An index moved up by `bias`, left alone where it would overflow.
pub open spec fn spec_shift_index(x: NodeIndex, bias: usize) -> NodeIndex {
    if x <= usize::MAX - bias {
        (x + bias) as NodeIndex
    } else {
        x
    }
}

/// One primal state with all its node references moved up by `bias`.
pub open spec fn spec_rebased_state(st: PrimalNodeState, bias: usize) -> PrimalNodeState {
    PrimalNodeState {
        in_tree: st.in_tree,
        tree_root: spec_shift_index(st.tree_root, bias),
        tree_parent: match st.tree_parent {
            Some(p) => Some(spec_shift_index(p, bias)),
            None => None,
        },
        plus: st.plus,
        touch_mine: spec_shift_index(st.touch_mine, bias),
        touch_theirs: spec_shift_index(st.touch_theirs, bias),
        temporary_match: match st.temporary_match {
            Some((MatchTarget::Peer(p), t)) => Some(
                (MatchTarget::Peer(spec_shift_index(p, bias)), spec_shift_index(t, bias)),
            ),
            Some((MatchTarget::VirtualVertex(v), t)) => Some(
                (MatchTarget::VirtualVertex(v), spec_shift_index(t, bias)),
            ),
            None => None,
        },
    }
}

/// One primal state with all its node references moved up by `bias`.
fn rebase_state(st: &PrimalNodeState, bias: usize) -> (r: PrimalNodeState)
    ensures
        r == spec_rebased_state(*st, bias),
{
    let big: NodeIndex = usize::MAX - bias;
    PrimalNodeState {
        in_tree: st.in_tree,
        tree_root: if st.tree_root <= big {
            st.tree_root + bias
        } else {
            st.tree_root
        },
        tree_parent: match st.tree_parent {
            Some(p) => Some(
                if p <= big {
                    p + bias
                } else {
                    p
                },
            ),
            None => None,
        },
        plus: st.plus,
        touch_mine: if st.touch_mine <= big {
            st.touch_mine + bias
        } else {
            st.touch_mine
        },
        touch_theirs: if st.touch_theirs <= big {
            st.touch_theirs + bias
        } else {
            st.touch_theirs
        },
        temporary_match: match st.temporary_match {
            Some((MatchTarget::Peer(p), t)) => Some(
                (
                    MatchTarget::Peer(
                        if p <= big {
                            p + bias
                        } else {
                            p
                        },
                    ),
                    if t <= big {
                        t + bias
                    } else {
                        t
                    },
                ),
            ),
            Some((MatchTarget::VirtualVertex(v), t)) => Some(
                (
                    MatchTarget::VirtualVertex(v),
                    if t <= big {
                        t + bias
                    } else {
                        t
                    },
                ),
            ),
            None => None,
        },
    }
}

} // verus!
