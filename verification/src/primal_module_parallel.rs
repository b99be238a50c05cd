//! The parallel primal module: one unit per partition-tree node, each with
//! its own interface and serial primal engine.  Leaves solve their own
//! vertex range; an inner unit fuses its two children, breaks the matches
//! that rested on now-interior mirrored vertices, loads the syndrome
//! vertices of its interface range, and resumes the blossom algorithm on
//! the combined state.  Units run in the deterministic order sequential
//! recursion gives, the same order the debug-sequential mode of a thread
//! pool would observe.

use vstd::prelude::*;

use crate::util::NodeIndex;
use crate::util::VertexIndex;
use crate::util::Weight;
use crate::util::BlossomError;
use crate::util::SyndromePattern;
use crate::util::SolverInitializer;
use crate::util::PartitionInfo;
use crate::util::VertexRange;
use crate::dual_module::DualModuleInterface;
use crate::dual_module::DualNodeGrowState;
use crate::dual_module_graph::DualModuleGraph;
use crate::dual_module_graph::DualModuleParallel;
use crate::primal_module_serial::PrimalModuleSerial;
use crate::primal_module_serial::MatchTarget;

verus! {

/// Default worker count: zero stands for the hardware concurrency.
pub fn thread_pool_size() -> (r: usize)
    ensures
        r == 0,
{
    0
}

/// Whether units run sequentially by default, for deterministic traces.
pub fn debug_sequential() -> (r: bool)
    ensures
        r == false,
{
    false
}

/// Configuration of the parallel primal module.
#[derive(Clone, Copy, PartialEq, Eq, Structural, Debug)]
pub struct PrimalModuleParallelConfig {
    /// worker count for an embedding thread pool; zero means the hardware
    /// concurrency
    pub thread_pool_size: usize,
    /// run the fusion tasks sequentially, so a tracing callback observes a
    /// deterministic interleaving
    pub debug_sequential: bool,
}

impl Default for PrimalModuleParallelConfig {
    /// The default configuration.
    fn default() -> (r: Self)
        ensures
            r.thread_pool_size == 0,
            !r.debug_sequential,
    {
        PrimalModuleParallelConfig { thread_pool_size: thread_pool_size(), debug_sequential: debug_sequential() }
    }
}

/// The parallel primal module: per-unit interfaces and serial engines,
/// aligned with the partition tree.
pub struct PrimalModuleParallel {
    /// local configuration
    pub config: PrimalModuleParallelConfig,
    /// the partition tree this module solves over
    pub partition_info: PartitionInfo,
    /// one interface per unit
    pub interfaces: Vec<DualModuleInterface>,
    /// one serial primal engine per unit
    pub serials: Vec<PrimalModuleSerial>,
    /// whether a unit may be solved: leaves start active, inner units
    /// activate when their fusion completes
    pub is_active: Vec<bool>,
}

impl PrimalModuleParallel {
    /// Everything the orchestration relies on: aligned tables, children
    /// strictly below their parent, and every interface valid.
    pub open spec fn wf(self) -> bool {
        &&& self.interfaces@.len() == self.partition_info.units@.len()
        &&& self.serials@.len() == self.partition_info.units@.len()
        &&& self.is_active@.len() == self.partition_info.units@.len()
        &&& forall|u: int|
            0 <= u < self.partition_info.units@.len() ==> ((
            #[trigger] self.partition_info.units@[u]).children matches Some(c) ==> c.0 < u
                && c.1 < u)
        &&& forall|u: int|
            0 <= u < self.interfaces@.len() ==> (#[trigger] self.interfaces@[u]).inv()
    }

    /// A module over the given partition of the given graph.  Fails when
    /// the partition does not fit the graph or a fusion names a unit at or
    /// above itself.
    #[verifier::loop_isolation(false)]
    pub fn new_config(
        initializer: &SolverInitializer,
        partition_info: PartitionInfo,
        config: PrimalModuleParallelConfig,
    ) -> (r: Option<Self>)
        ensures
            r is None <==> (initializer.vertex_num != partition_info.vertex_num
                || partition_info.units@.len() == 0 || exists|u: int|
                0 <= u < partition_info.units@.len() && ((
                #[trigger] partition_info.units@[u]).children matches Some(c) && (c.0 >= u
                    || c.1 >= u))),
            r matches Some(p) ==> {
                &&& p.wf()
                &&& p.partition_info == partition_info
                &&& p.config == config
                &&& forall|k: int|
                    0 <= k < p.interfaces@.len() ==> {
                        &&& (#[trigger] p.interfaces@[k]).nodes_length == 0
                        &&& p.interfaces@[k].nodes@.len() == 0
                        &&& p.interfaces@[k].sum_grow_speed == 0
                        &&& p.interfaces@[k].sum_dual_variables == 0
                        &&& p.interfaces@[k].dual_variable_global_progress == 0
                    }
                &&& forall|k: int|
                    0 <= k < p.serials@.len() ==> (#[trigger] p.serials@[k]).nodes@.len() == 0
                        && p.serials@[k].possible_break@.len() == 0
                &&& forall|k: int|
                    0 <= k < p.is_active@.len() ==> #[trigger] p.is_active@[k]
                        == (partition_info.units@[k].children is None)
            },
    {
        if initializer.vertex_num != partition_info.vertex_num {
            return None;
        }
        if partition_info.units.len() == 0 {
            return None;
        }
        let unit_count: usize = partition_info.units.len();
        let mut u: usize = 0;
        while u < unit_count
            invariant
                u <= unit_count,
                unit_count == partition_info.units@.len(),
                forall|k: int|
                    0 <= k < u ==> ((#[trigger] partition_info.units@[k]).children matches Some(
                        c,
                    ) ==> c.0 < k && c.1 < k),
            decreases unit_count - u,
        {
            match partition_info.units[u].children {
                Some((l, rr)) => {
                    if l >= u || rr >= u {
                        proof {
                            assert((partition_info.units@[u as int]).children matches Some(c)
                                && (c.0 >= u as int || c.1 >= u as int));
                        }
                        return None;
                    }
                },
                None => {},
            }
            u += 1;
        }
        let mut interfaces: Vec<DualModuleInterface> = Vec::new();
        let mut serials: Vec<PrimalModuleSerial> = Vec::new();
        let mut is_active: Vec<bool> = Vec::new();
        let mut u2: usize = 0;
        while u2 < unit_count
            invariant
                u2 <= unit_count,
                unit_count == partition_info.units@.len(),
                interfaces@.len() == u2,
                serials@.len() == u2,
                is_active@.len() == u2,
                forall|k: int| 0 <= k < u2 ==> (#[trigger] interfaces@[k]).inv(),
                forall|k: int|
                    0 <= k < u2 ==> {
                        &&& (#[trigger] interfaces@[k]).nodes_length == 0
                        &&& interfaces@[k].nodes@.len() == 0
                        &&& interfaces@[k].sum_grow_speed == 0
                        &&& interfaces@[k].sum_dual_variables == 0
                        &&& interfaces@[k].dual_variable_global_progress == 0
                    },
                forall|k: int|
                    0 <= k < u2 ==> (#[trigger] serials@[k]).nodes@.len() == 0
                        && serials@[k].possible_break@.len() == 0,
                forall|k: int|
                    0 <= k < u2 ==> #[trigger] is_active@[k] == (
                    partition_info.units@[k].children is None),
            decreases unit_count - u2,
        {
            interfaces.push(DualModuleInterface::new_empty());
            serials.push(PrimalModuleSerial::new_empty());
            is_active.push(partition_info.units[u2].children.is_none());
            u2 += 1;
        }
        Some(PrimalModuleParallel { config, partition_info, interfaces, serials, is_active })
    }

    /// The final dual total of the root unit's interface.
    pub fn root_sum_dual_variables(&self) -> (r: Weight)
        requires
            self.wf(),
            self.interfaces@.len() > 0,
        ensures
            r == self.interfaces@[self.interfaces@.len() - 1].sum_dual_variables,
    {
        self.interfaces[self.interfaces.len() - 1].sum_dual_variables
    }

    /// The matching the root unit has settled on: each matched node with
    /// its target and touching descendant, in slot order of the root's
    /// arena.
    pub fn intermediate_matching(&self) -> (r: Vec<
        (NodeIndex, MatchTarget, NodeIndex),
    >)
        requires
            self.wf(),
            self.serials@.len() > 0,
        ensures
            r@ == crate::primal_module_serial::matching_view(
                self.serials@[self.serials@.len() - 1].nodes@,
            ),
    {
        self.serials[self.serials.len() - 1].intermediate_matching()
    }

    /// Solves a syndrome over the partition tree: every leaf first, then
    /// each fusion in the configured order, the root last.
    pub fn parallel_solve(
        &mut self,
        syndrome_pattern: &SyndromePattern,
        parallel_dual_module: &mut DualModuleParallel,
    ) -> (r: Result<(), BlossomError>)
        requires
            old(self).wf(),
        ensures
            final (self).wf(),
            final (self).partition_info == old(self).partition_info,
            r is Ok ==> final (self).is_active@.len() > 0 && final (self).is_active@[final (self).is_active@.len() - 1],
    {
        if self.interfaces.len() == 0 {
            return Err(BlossomError::Corrupted);
        }
        let root: usize = self.interfaces.len() - 1;
        self.solve_unit(parallel_dual_module, root, &syndrome_pattern.syndrome_vertices)
    }

    /// Solves one unit: a leaf loads and solves its own range; an inner
    /// unit solves its children, fuses them, breaks stale mirror matches,
    /// loads its interface range, and resumes.
    #[verifier::loop_isolation(false)]
    fn solve_unit(
        &mut self,
        parallel_dual_module: &mut DualModuleParallel,
        u: usize,
        syndrome_vertices: &Vec<VertexIndex>,
    ) -> (r: Result<(), BlossomError>)
        requires
            old(self).wf(),
            u < old(self).interfaces@.len(),
        ensures
            final (self).wf(),
            final (self).interfaces@.len() == old(self).interfaces@.len(),
            final (self).partition_info == old(self).partition_info,
            r is Ok ==> final (self).is_active@[u as int],
            r is Ok ==> (old(self).partition_info.units@[u as int].children matches Some(c)
                ==> !final (self).is_active@[c.0 as int] && !final (self).is_active@[c.1 as
                int]),
        decreases u,
    {
        let children = self.partition_info.units[u].children;
        let owning_range = self.partition_info.units[u].owning_range;
        let mine = filter_range(syndrome_vertices, owning_range);
        if u >= parallel_dual_module.units.len() {
            return Err(BlossomError::Corrupted);
        }
        match children {
            None => {
                if !self.is_active[u] {
                    return Err(BlossomError::Corrupted);
                }
                let mut itf = DualModuleInterface::new_empty();
                let mut ser = PrimalModuleSerial::new_empty();
                let mut du = DualModuleGraph::new_placeholder();
                self.interfaces.set_and_swap(u, &mut itf);
                self.serials.set_and_swap(u, &mut ser);
                parallel_dual_module.units.set_and_swap(u, &mut du);
                let res = solve_interface_loaded(&mut ser, &mut itf, &mut du, &mine);
                self.interfaces.set_and_swap(u, &mut itf);
                self.serials.set_and_swap(u, &mut ser);
                parallel_dual_module.units.set_and_swap(u, &mut du);
                proof {
                    assert forall|k: int|
                        0 <= k < self.interfaces@.len() implies (
                    #[trigger] self.interfaces@[k]).inv() by {
                        if k != u {
                            assert(self.interfaces@[k] == old(self).interfaces@[k]);
                        }
                    }
                }
                res
            },
            Some((left, right)) => {
                if self.is_active[u] {
                    return Err(BlossomError::Corrupted);
                }
                proof {
                    assert(self.partition_info.units@[u as int].children == Some(
                        (left, right),
                    ));
                }
                match self.solve_unit(parallel_dual_module, left, syndrome_vertices) {
                    Ok(()) => {},
                    Err(e) => {
                        return Err(e);
                    },
                }
                match self.solve_unit(parallel_dual_module, right, syndrome_vertices) {
                    Ok(()) => {},
                    Err(e) => {
                        return Err(e);
                    },
                }
                if left >= self.is_active.len() || right >= self.is_active.len() || u
                    >= parallel_dual_module.units.len() {
                    return Err(BlossomError::Corrupted);
                }
                if !self.is_active[left] || !self.is_active[right] {
                    return Err(BlossomError::Corrupted);
                }
                self.is_active.set(left, false);
                self.is_active.set(right, false);
                let ghost mid = *self;
                let mut itf = DualModuleInterface::new_empty();
                let mut ser = PrimalModuleSerial::new_empty();
                let mut du = DualModuleGraph::new_placeholder();
                let mut itf_left = DualModuleInterface::new_empty();
                let mut itf_right = DualModuleInterface::new_empty();
                let mut ser_left = PrimalModuleSerial::new_empty();
                let mut ser_right = PrimalModuleSerial::new_empty();
                self.interfaces.set_and_swap(u, &mut itf);
                self.serials.set_and_swap(u, &mut ser);
                parallel_dual_module.units.set_and_swap(u, &mut du);
                self.interfaces.set_and_swap(left, &mut itf_left);
                self.interfaces.set_and_swap(right, &mut itf_right);
                self.serials.set_and_swap(left, &mut ser_left);
                self.serials.set_and_swap(right, &mut ser_right);
                let res = fuse_and_resume(
                    &mut ser,
                    &mut itf,
                    &mut du,
                    &itf_left,
                    &itf_right,
                    &ser_left,
                    &ser_right,
                    &self.partition_info.vertex_to_owning_unit,
                    u,
                    &mine,
                );
                self.interfaces.set_and_swap(u, &mut itf);
                self.serials.set_and_swap(u, &mut ser);
                parallel_dual_module.units.set_and_swap(u, &mut du);
                self.interfaces.set_and_swap(left, &mut itf_left);
                self.interfaces.set_and_swap(right, &mut itf_right);
                self.serials.set_and_swap(left, &mut ser_left);
                self.serials.set_and_swap(right, &mut ser_right);
                self.is_active.set(u, true);
                proof {
                    assert forall|k: int|
                        0 <= k < self.interfaces@.len() implies (
                    #[trigger] self.interfaces@[k]).inv() by {
                        if k != u && k != left && k != right {
                            assert(self.interfaces@[k] == mid.interfaces@[k]);
                        }
                    }
                }
                res
            },
        }
    }
}

/// The vertices of `syndrome_vertices` that fall inside `range`, kept in
/// order.
#[verifier::loop_isolation(false)]
fn filter_range(syndrome_vertices: &Vec<VertexIndex>, range: VertexRange) -> (r: Vec<
    VertexIndex,
>) {
    let mut r: Vec<VertexIndex> = Vec::new();
    let mut k: usize = 0;
    while k < syndrome_vertices.len()
        decreases syndrome_vertices@.len() - k,
    {
        let v = syndrome_vertices[k];
        if range.contains(v) {
            r.push(v);
        }
        k += 1;
    }
    r
}

/// Loads the given syndrome vertices and runs the serial engine to
/// completion.
#[verifier::loop_isolation(false)]
fn solve_interface_loaded(
    ser: &mut PrimalModuleSerial,
    itf: &mut DualModuleInterface,
    du: &mut DualModuleGraph,
    mine: &Vec<VertexIndex>,
) -> (r: Result<(), BlossomError>)
    requires
        old(itf).inv(),
    ensures
        final (itf).inv(),
{
    let mut k: usize = 0;
    while k < mine.len()
        invariant
            itf.inv(),
        decreases mine@.len() - k,
    {
        match ser.load_syndrome(mine[k], itf, du) {
            Ok(()) => {},
            Err(e) => {
                return Err(e);
            },
        }
        k += 1;
    }
    ser.solve_step_loop(itf, du)
}

/// Fuses two solved children into a fresh parent state, clears the mirror
/// matches the fusion made interior, loads the interface syndrome, and
/// resumes the blossom algorithm.
fn fuse_and_resume(
    ser: &mut PrimalModuleSerial,
    itf: &mut DualModuleInterface,
    du: &mut DualModuleGraph,
    itf_left: &DualModuleInterface,
    itf_right: &DualModuleInterface,
    ser_left: &PrimalModuleSerial,
    ser_right: &PrimalModuleSerial,
    vertex_to_owning_unit: &Vec<usize>,
    unit_index: usize,
    mine: &Vec<VertexIndex>,
) -> (r: Result<(), BlossomError>)
    requires
        old(itf).inv(),
        itf_left.inv(),
        itf_right.inv(),
    ensures
        final (itf).inv(),
{
    let bias_left: usize = itf.nodes_length;
    if bias_left > usize::MAX - itf_left.nodes_length {
        return Err(BlossomError::ArenaOverflow);
    }
    let bias_right: usize = bias_left + itf_left.nodes_length;
    match itf.fuse(itf_left, itf_right) {
        Ok(()) => {},
        Err(e) => {
            return Err(e);
        },
    }
    ser.fuse(ser_left, ser_right, bias_left, bias_right);
    ser.sync_length(itf);
    match ser.break_matching_with_mirror(unit_index, vertex_to_owning_unit, itf, du) {
        Ok(()) => {},
        Err(e) => {
            return Err(e);
        },
    }
    solve_interface_loaded(ser, itf, du, mine)
}

} // verus!
