//! A concrete dual backend on the decoding graph: each unit hosts the
//! subgraph its partition subtree covers, treats the vertices just outside
//! it as mirrored boundary, and recomputes region coverage from the
//! interface's lazy dual variables whenever the growth oracle is asked.

use vstd::prelude::*;

use crate::util::NodeIndex;
use crate::util::VertexIndex;
use crate::util::EdgeIndex;
use crate::util::Weight;
use crate::util::SolverInitializer;
use crate::util::PartitionInfo;
use crate::dual_module::DualModuleInterface;
use crate::dual_module::DualModuleImpl;
use crate::dual_module::DualNodePtr;
use crate::dual_module::DualNodeClass;
use crate::dual_module::DualNodeGrowState;
use crate::dual_module::MaxUpdateLength;
use crate::dual_module::GroupMaxUpdateLength;

verus! {

/// Saturating addition on wide intermediates; the decode never comes close
/// to the rails.
fn sat_add(a: i128, b: i128) -> (r: i128)
    ensures
        (i128::MIN <= a + b <= i128::MAX) ==> r == a + b,
{
    if b >= 0 {
        if a <= i128::MAX - b {
            a + b
        } else {
            i128::MAX
        }
    } else {
        if a >= i128::MIN - b {
            a + b
        } else {
            i128::MIN
        }
    }
}

/// Saturating negation on wide intermediates.
fn sat_neg(a: i128) -> (r: i128)
    ensures
        a != i128::MIN ==> r == -a,
{
    if a == i128::MIN {
        i128::MAX
    } else {
        -a
    }
}

/// One unit's view of the decoding graph: the vertices its subtree covers
/// are live, and every vertex just outside acts as a mirrored virtual
/// boundary until an ancestor fuses it in.
pub struct DualModuleGraph {
    /// number of vertices of the whole graph
    pub vertex_num: usize,
    /// edge endpoints, by edge index
    pub edges: Vec<(VertexIndex, VertexIndex)>,
    /// current edge weights, zeroed by erasures
    pub edge_weights: Vec<Weight>,
    /// pristine edge weights, restored by `clear`
    pub edge_weights_original: Vec<Weight>,
    /// for each vertex, its incident edges as `(far endpoint, edge)`
    pub neighbors: Vec<Vec<(VertexIndex, EdgeIndex)>>,
    /// whether a vertex is an open boundary of the whole graph
    pub is_virtual: Vec<bool>,
    /// whether a vertex lives in this unit's covered range or mirrors its
    /// boundary
    pub participates: Vec<bool>,
    /// first vertex this unit's subtree covers
    pub range_start: VertexIndex,
    /// one past the last vertex this unit's subtree covers
    pub range_end: VertexIndex,
}

impl DualModuleGraph {
    /// An inert placeholder with no graph at all.
    pub fn new_placeholder() -> (r: Self)
    {
        DualModuleGraph {
            vertex_num: 0,
            edges: Vec::new(),
            edge_weights: Vec::new(),
            edge_weights_original: Vec::new(),
            neighbors: Vec::new(),
            is_virtual: Vec::new(),
            participates: Vec::new(),
            range_start: 0,
            range_end: 0,
        }
    }

    /// The unit covering `[range_start, range_end)` of the given graph.
    #[verifier::loop_isolation(false)]
    pub fn new_unit(initializer: &SolverInitializer, range_start: VertexIndex, range_end:
        VertexIndex) -> (r: Self)
    {
        let n: usize = initializer.vertex_num;
        let mut edges: Vec<(VertexIndex, VertexIndex)> = Vec::new();
        let mut edge_weights: Vec<Weight> = Vec::new();
        let mut neighbors: Vec<Vec<(VertexIndex, EdgeIndex)>> = Vec::new();
        let mut is_virtual: Vec<bool> = Vec::new();
        let mut participates: Vec<bool> = Vec::new();
        let mut v: usize = 0;
        while v < n
            invariant
                v <= n,
                neighbors@.len() == v,
                is_virtual@.len() == v,
                participates@.len() == v,
            decreases n - v,
        {
            neighbors.push(Vec::new());
            is_virtual.push(false);
            participates.push(range_start <= v && v < range_end);
            v += 1;
        }
        let mut k: usize = 0;
        while k < initializer.virtual_vertices.len()
            invariant
                is_virtual@.len() == n,
            decreases initializer.virtual_vertices@.len() - k,
        {
            let vv = initializer.virtual_vertices[k];
            if vv < is_virtual.len() {
                is_virtual.set(vv, true);
            }
            k += 1;
        }
        let mut e: usize = 0;
        while e < initializer.weighted_edges.len()
            invariant
                edges@.len() == edge_weights@.len(),
                neighbors@.len() == n,
                participates@.len() == n,
            decreases initializer.weighted_edges@.len() - e,
        {
            let (u, w_vertex, weight) = initializer.weighted_edges[e];
            if u < n && w_vertex < n {
                let in_u = range_start <= u && u < range_end;
                let in_w = range_start <= w_vertex && w_vertex < range_end;
                if in_u || in_w {
                    let edge_index: EdgeIndex = edges.len();
                    edges.push((u, w_vertex));
                    edge_weights.push(if weight >= 0 {
                        weight
                    } else {
                        0
                    });
                    let mut nu = neighbors.remove(u);
                    nu.push((w_vertex, edge_index));
                    neighbors.insert(u, nu);
                    let mut nw = neighbors.remove(w_vertex);
                    nw.push((u, edge_index));
                    neighbors.insert(w_vertex, nw);
                    // a foreign endpoint mirrors this unit's boundary
                    if !in_u {
                        participates.set(u, true);
                    }
                    if !in_w {
                        participates.set(w_vertex, true);
                    }
                }
            }
            e += 1;
        }
        let edge_weights_original = copy_weight_vec(&edge_weights);
        DualModuleGraph {
            vertex_num: n,
            edges,
            edge_weights,
            edge_weights_original,
            neighbors,
            is_virtual,
            participates,
            range_start,
            range_end,
        }
    }

    /// Whether the unit's subtree covers `v`.
    fn enabled(&self, v: VertexIndex) -> (r: bool)
    {
        self.range_start <= v && v < self.range_end
    }

    /// Whether `v` absorbs growth: a true boundary vertex, or a mirrored
    /// one outside the covered range.
    fn absorbing(&self, v: VertexIndex) -> (r: bool)
    {
        if v < self.is_virtual.len() {
            self.is_virtual[v] || !self.enabled(v)
        } else {
            true
        }
    }
}

/// An exact copy of a weight list.
fn copy_weight_vec(v: &Vec<Weight>) -> (r: Vec<Weight>)
    ensures
        r@ == v@,
{
    let mut r: Vec<Weight> = Vec::new();
    let mut i: usize = 0;
    while i < v.len()
        invariant
            r@ == v@.take(i as int),
            i <= v@.len(),
        decreases v@.len() - i,
    {
        r.push(v[i]);
        i += 1;
    }
    proof {
        assert(v@.take(v@.len() as int) =~= v@);
    }
    r
}

/// The root above slot `i` and the ball radius of the defect in slot `i`:
/// the sum of the dual variables along its parent chain.
fn chain_root_radius(interface: &DualModuleInterface, i: NodeIndex) -> (r: (NodeIndex, i128))
    requires
        interface.inv(),
        interface.is_tracked(i as int),
    ensures
        interface.is_tracked(r.0 as int),
        interface.node_at(r.0 as int).parent_blossom is None,
    decreases interface.nodes_length - i,
{
    proof {
        assert(interface.node_inv(i as int));
    }
    let node = interface.nodes[i].as_ref().unwrap();
    let d: i128 = node.get_dual_variable(interface) as i128;
    match node.parent_blossom {
        Some(p) => {
            let (root, rad) = chain_root_radius(interface, p);
            (root, sat_add(rad, d))
        },
        None => (i, d),
    }
}

impl DualModuleImpl for DualModuleGraph {
    fn clear(&mut self) {
        self.edge_weights = copy_weight_vec(&self.edge_weights_original);
    }

    fn add_syndrome_node(&mut self, interface: &DualModuleInterface, dual_node_ptr: DualNodePtr) {
    }

    fn add_blossom(&mut self, interface: &DualModuleInterface, dual_node_ptr: DualNodePtr) {
    }

    fn remove_blossom(&mut self, interface: &DualModuleInterface, dual_node_ptr: DualNodePtr) {
    }

    fn set_grow_state(
        &mut self,
        interface: &DualModuleInterface,
        dual_node_ptr: DualNodePtr,
        grow_state: DualNodeGrowState,
    ) {
    }

    fn prepare_nodes_shrink(
        &mut self,
        interface: &DualModuleInterface,
        nodes_circle: &Vec<DualNodePtr>,
    ) {
    }

    fn grow(&mut self, length: Weight) {
    }

    /// Recomputes region coverage by a multi-source shortest-path sweep
    /// from every defect, then scans edges and roots for the events that
    /// cap uniform growth.
    #[verifier::loop_isolation(false)]
    fn compute_maximum_update_length(&mut self, interface: &DualModuleInterface) -> (r:
        GroupMaxUpdateLength) {
        let n: usize = self.vertex_num;
        let len: usize = interface.nodes_length;
        // ball radius and root of every defect, indexed by vertex
        let mut reach: Vec<i128> = Vec::new();
        let mut claim_defect: Vec<NodeIndex> = Vec::new();
        let mut claim_root: Vec<NodeIndex> = Vec::new();
        let mut claimed_at_all: Vec<bool> = Vec::new();
        let mut visited: Vec<bool> = Vec::new();
        let mut v0: usize = 0;
        while v0 < n
            invariant
                v0 <= n,
                reach@.len() == v0 && claim_defect@.len() == v0 && claim_root@.len() == v0
                    && claimed_at_all@.len() == v0 && visited@.len() == v0,
            decreases n - v0,
        {
            reach.push(i128::MAX);
            claim_defect.push(0);
            claim_root.push(0);
            claimed_at_all.push(false);
            visited.push(false);
            v0 += 1;
        }
        // root speeds, indexed by node
        let mut speed_of: Vec<i64> = Vec::new();
        let mut is_root: Vec<bool> = Vec::new();
        let mut i0: usize = 0;
        while i0 < len
            invariant
                i0 <= len,
                interface.inv(),
                len == interface.nodes_length,
                speed_of@.len() == i0 && is_root@.len() == i0,
            decreases len - i0,
        {
            let mut sp: i64 = 0;
            let mut rooted: bool = false;
            if i0 < interface.nodes.len() {
                match &interface.nodes[i0] {
                    Some(node) => {
                        if node.parent_blossom.is_none() {
                            rooted = true;
                            sp = match node.grow_state {
                                DualNodeGrowState::Grow => 1,
                                DualNodeGrowState::Stay => 0,
                                DualNodeGrowState::Shrink => -1,
                            };
                        }
                    },
                    None => {},
                }
            }
            speed_of.push(sp);
            is_root.push(rooted);
            i0 += 1;
        }
        // seed the sweep with every defect
        let mut i1: usize = 0;
        while i1 < len
            invariant
                interface.inv(),
                len == interface.nodes_length,
                reach@.len() == n && claim_defect@.len() == n && claim_root@.len() == n
                    && claimed_at_all@.len() == n && visited@.len() == n,
            decreases len - i1,
        {
            if i1 < interface.nodes.len() {
                let mut seed: Option<(VertexIndex, NodeIndex, i128)> = None;
                match &interface.nodes[i1] {
                    Some(node) => {
                        match &node.class {
                            DualNodeClass::SyndromeVertex { syndrome_index } => {
                                proof {
                                    assert(interface.is_tracked(i1 as int));
                                }
                                let (root, rad) = chain_root_radius(interface, i1);
                                seed = Some((*syndrome_index, root, rad));
                            },
                            DualNodeClass::Blossom { .. } => {},
                        }
                    },
                    None => {},
                }
                match seed {
                    Some((sv, root, rad)) => {
                        if sv < n && self.enabled(sv) {
                            let key: i128 = sat_neg(rad);
                            if key < reach[sv] {
                                reach.set(sv, key);
                                claim_defect.set(sv, i1);
                                claim_root.set(sv, root);
                                claimed_at_all.set(sv, true);
                            }
                        }
                    },
                    None => {},
                }
            }
            i1 += 1;
        }
        // multi-source sweep; boundary vertices absorb and never relay
        let mut round: usize = 0;
        while round < n
            invariant
                reach@.len() == n && claim_defect@.len() == n && claim_root@.len() == n
                    && claimed_at_all@.len() == n && visited@.len() == n,
            decreases n - round,
        {
            let mut best: usize = n;
            let mut best_reach: i128 = i128::MAX;
            let mut u: usize = 0;
            while u < n
                invariant
                    reach@.len() == n && visited@.len() == n,
                    best <= n,
                decreases n - u,
            {
                if !visited[u] && u < self.participates.len() && self.participates[u]
                    && reach[u] < best_reach {
                    best = u;
                    best_reach = reach[u];
                }
                u += 1;
            }
            if best == n {
                break ;
            }
            visited.set(best, true);
            if !self.absorbing(best) && claimed_at_all[best] && best < self.neighbors.len() {
                let row = &self.neighbors[best];
                let mut t: usize = 0;
                while t < row.len()
                    invariant
                        reach@.len() == n && claim_defect@.len() == n && claim_root@.len() == n
                            && claimed_at_all@.len() == n && visited@.len() == n,
                        best < n,
                    decreases row@.len() - t,
                {
                    let (far, eid) = row[t];
                    if far < n && eid < self.edge_weights.len() && far
                        < self.participates.len() && self.participates[far] {
                        let w: i128 = self.edge_weights[eid] as i128;
                        let alt: i128 = sat_add(reach[best], w);
                        if alt < reach[far] {
                            reach.set(far, alt);
                            claim_defect.set(far, claim_defect[best]);
                            claim_root.set(far, claim_root[best]);
                            claimed_at_all.set(far, claimed_at_all[best]);
                        }
                    }
                    t += 1;
                }
            }
            round += 1;
        }
        // scan edges and roots for events
        let mut group = GroupMaxUpdateLength::new();
        let mut min_bound: i128 = i128::MAX;
        let mut e: usize = 0;
        while e < self.edges.len()
            invariant
                interface.inv(),
                len == interface.nodes_length,
                reach@.len() == n && claim_defect@.len() == n && claim_root@.len() == n
                    && claimed_at_all@.len() == n,
                speed_of@.len() == len && is_root@.len() == len,
                group@.wf(),
            decreases self.edges@.len() - e,
        {
            if e < self.edge_weights.len() {
                let (u, v) = self.edges[e];
                if u < n && v < n {
                    let pu = u < self.participates.len() && self.participates[u];
                    let pv = v < self.participates.len() && self.participates[v];
                    if pu && pv && (self.enabled(u) || self.enabled(v)) {
                        let w: i128 = self.edge_weights[e] as i128;
                        let cu = !self.absorbing(u) && claimed_at_all[u] && reach[u] <= 0;
                        let cv = !self.absorbing(v) && claimed_at_all[v] && reach[v] <= 0;
                        if cu && cv {
                            let ru = claim_root[u];
                            let rv = claim_root[v];
                            if ru != rv && ru < len && rv < len {
                                let joint: i128 = speed_of[ru] as i128 + speed_of[rv] as i128;
                                let gu: i128 = sat_neg(reach[u]);
                                let gv: i128 = sat_neg(reach[v]);
                                let slack: i128 = sat_add(sat_add(w, sat_neg(gu)), sat_neg(gv));
                                if joint > 0 {
                                    if slack <= 0 {
                                        group.add(
                                            MaxUpdateLength::Conflicting(
                                                (
                                                    DualNodePtr { index: ru },
                                                    DualNodePtr { index: claim_defect[u] },
                                                ),
                                                (
                                                    DualNodePtr { index: rv },
                                                    DualNodePtr { index: claim_defect[v] },
                                                ),
                                            ),
                                            interface,
                                        );
                                    } else {
                                        let bound: i128 = slack / joint;
                                        if bound < min_bound {
                                            min_bound = bound;
                                        }
                                    }
                                }
                            }
                        } else if cu && self.absorbing(v) {
                            let ru = claim_root[u];
                            if ru < len && speed_of[ru] > 0 {
                                let gu: i128 = sat_neg(reach[u]);
                                let slack: i128 = sat_add(w, sat_neg(gu));
                                if slack <= 0 {
                                    group.add(
                                        MaxUpdateLength::TouchingVirtual(
                                            (
                                                DualNodePtr { index: ru },
                                                DualNodePtr { index: claim_defect[u] },
                                            ),
                                            (v, !self.enabled(v)),
                                        ),
                                        interface,
                                    );
                                } else if slack < min_bound {
                                    min_bound = slack;
                                }
                            }
                        } else if cv && self.absorbing(u) {
                            let rv = claim_root[v];
                            if rv < len && speed_of[rv] > 0 {
                                let gv: i128 = sat_neg(reach[v]);
                                let slack: i128 = sat_add(w, sat_neg(gv));
                                if slack <= 0 {
                                    group.add(
                                        MaxUpdateLength::TouchingVirtual(
                                            (
                                                DualNodePtr { index: rv },
                                                DualNodePtr { index: claim_defect[v] },
                                            ),
                                            (u, !self.enabled(u)),
                                        ),
                                        interface,
                                    );
                                } else if slack < min_bound {
                                    min_bound = slack;
                                }
                            }
                        } else if cu && !cv && !self.absorbing(v) {
                            let ru = claim_root[u];
                            if ru < len && speed_of[ru] > 0 {
                                let gu: i128 = sat_neg(reach[u]);
                                let slack: i128 = sat_add(w, sat_neg(gu));
                                if 0 < slack && slack < min_bound {
                                    min_bound = slack;
                                }
                            }
                        } else if cv && !cu && !self.absorbing(u) {
                            let rv = claim_root[v];
                            if rv < len && speed_of[rv] > 0 {
                                let gv: i128 = sat_neg(reach[v]);
                                let slack: i128 = sat_add(w, sat_neg(gv));
                                if 0 < slack && slack < min_bound {
                                    min_bound = slack;
                                }
                            }
                        }
                    }
                }
            }
            e += 1;
        }
        // shrinking regions retreat one vertex at a time
        let mut rv0: usize = 0;
        while rv0 < n
            invariant
                reach@.len() == n && claim_root@.len() == n && claimed_at_all@.len() == n,
                speed_of@.len() == len,
            decreases n - rv0,
        {
            if !self.absorbing(rv0) && claimed_at_all[rv0] && reach[rv0] <= 0 {
                let root = claim_root[rv0];
                if root < len && speed_of[root] < 0 {
                    let g: i128 = sat_neg(reach[rv0]);
                    if 0 < g && g < min_bound {
                        min_bound = g;
                    }
                }
            }
            rv0 += 1;
        }
        // shrinking roots bound growth by their own dual variable
        let mut i2: usize = 0;
        while i2 < len
            invariant
                interface.inv(),
                len == interface.nodes_length,
                reach@.len() == n && claim_defect@.len() == n && claim_root@.len() == n
                    && claimed_at_all@.len() == n,
                speed_of@.len() == len && is_root@.len() == len,
                group@.wf(),
            decreases len - i2,
        {
            if is_root[i2] && speed_of[i2] < 0 && i2 < interface.nodes.len() {
                match &interface.nodes[i2] {
                    Some(node) => {
                        proof {
                            assert(interface.is_tracked(i2 as int));
                            assert(interface.node_inv(i2 as int));
                        }
                        let y: Weight = node.get_dual_variable(interface);
                        if y <= 0 {
                            match &node.class {
                                DualNodeClass::Blossom { .. } => {
                                    group.add(
                                        MaxUpdateLength::BlossomNeedExpand(
                                            DualNodePtr { index: i2 },
                                        ),
                                        interface,
                                    );
                                },
                                DualNodeClass::SyndromeVertex { syndrome_index } => {
                                    let sv = *syndrome_index;
                                    let mut found_any: bool = false;
                                    if sv < n && sv < self.neighbors.len() {
                                        let row = &self.neighbors[sv];
                                        let mut t: usize = 0;
                                        while t < row.len()
                                            invariant
                                                interface.inv(),
                                                len == interface.nodes_length,
                                                reach@.len() == n && claim_defect@.len() == n
                                                    && claim_root@.len() == n
                                                    && claimed_at_all@.len() == n,
                                                group@.wf(),
                                                interface.is_tracked(i2 as int),
                                            decreases row@.len() - t,
                                        {
                                            let (far, eid) = row[t];
                                            if far < n && eid < self.edge_weights.len()
                                                && !self.absorbing(far) && claimed_at_all[far]
                                                && reach[far] <= 0 && claim_root[far] != i2 {
                                                let w: i128 = self.edge_weights[eid] as i128;
                                                let gf: i128 = sat_neg(reach[far]);
                                                let slack: i128 = sat_add(w, sat_neg(gf));
                                                if slack <= 0 {
                                                    group.add(
                                                        MaxUpdateLength::VertexShrinkStop(
                                                            (
                                                                DualNodePtr { index: i2 },
                                                                Some(
                                                                    (
                                                                        DualNodePtr {
                                                                            index: claim_root[
                                                                                far],
                                                                        },
                                                                        DualNodePtr {
                                                                            index:
                                                                                claim_defect[far],
                                                                        },
                                                                    ),
                                                                ),
                                                            ),
                                                        ),
                                                        interface,
                                                    );
                                                    found_any = true;
                                                }
                                            }
                                            t += 1;
                                        }
                                    }
                                    if !found_any {
                                        group.add(
                                            MaxUpdateLength::VertexShrinkStop(
                                                (DualNodePtr { index: i2 }, None),
                                            ),
                                            interface,
                                        );
                                    }
                                },
                            }
                        } else {
                            if (y as i128) < min_bound {
                                min_bound = y as i128;
                            }
                        }
                    },
                    None => {},
                }
            }
            i2 += 1;
        }
        let capped: Weight = if min_bound >= i64::MAX as i128 {
            i64::MAX
        } else if min_bound < 0 {
            0
        } else {
            min_bound as i64
        };
        group.add(MaxUpdateLength::NonZeroGrow(capped), interface);
        group
    }

    #[verifier::loop_isolation(false)]
    fn load_edge_modifier(&mut self, edge_modifier: &Vec<(EdgeIndex, Weight)>) {
        let mut k: usize = 0;
        while k < edge_modifier.len()
            decreases edge_modifier@.len() - k,
        {
            let (eid, w) = edge_modifier[k];
            if eid < self.edge_weights.len() {
                self.edge_weights.set(eid, w);
            }
            k += 1;
        }
    }

    #[verifier::loop_isolation(false)]
    fn load_erasures(&mut self, erasures: &Vec<EdgeIndex>) {
        let mut k: usize = 0;
        while k < erasures.len()
            decreases erasures@.len() - k,
        {
            let eid = erasures[k];
            if eid < self.edge_weights.len() {
                self.edge_weights.set(eid, 0);
            }
            k += 1;
        }
    }
}

/// The parallel dual module: one graph unit per partition-tree unit, each
/// covering its subtree's whole range.
pub struct DualModuleParallel {
    /// per-unit backends, aligned with the partition tree's units
    pub units: Vec<DualModuleGraph>,
}

impl DualModuleParallel {
    /// One backend per partition unit.
    #[verifier::loop_isolation(false)]
    pub fn new_config(initializer: &SolverInitializer, partition_info: &PartitionInfo) -> (r:
        Self)
    {
        let mut units: Vec<DualModuleGraph> = Vec::new();
        let mut u: usize = 0;
        while u < partition_info.units.len()
            decreases partition_info.units@.len() - u,
        {
            let whole = partition_info.units[u].whole_range;
            units.push(DualModuleGraph::new_unit(initializer, whole.start, whole.end));
            u += 1;
        }
        DualModuleParallel { units }
    }
}

} // verus!
