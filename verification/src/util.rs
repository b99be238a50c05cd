//! Shared plain types: indices, weights, syndrome patterns, the decoding
//! graph description and the partition tree metadata.

use vstd::prelude::*;

verus! {

/// Index of a vertex in the decoding graph.
pub type VertexIndex = usize;

/// Index of a dual node inside an interface's arena.
pub type NodeIndex = usize;

/// Index of an edge in the decoding graph.
pub type EdgeIndex = usize;

/// Width of a dual variable, an edge weight, or a growth length.
pub type Weight = i64;

/// A measured error pattern: the flagged vertices, and the erased edges.
pub struct SyndromePattern {
    /// the vertices flagged by a measured error symptom
    pub syndrome_vertices: Vec<VertexIndex>,
    /// edges whose weight is temporarily set to zero
    pub erasures: Vec<EdgeIndex>,
}

impl SyndromePattern {
    /// A syndrome made of the given vertices, with no erasures.
    pub fn new_vertices(syndrome_vertices: Vec<VertexIndex>) -> (r: Self)
        ensures
            r.syndrome_vertices@ == syndrome_vertices@,
            r.erasures@ == Seq::<EdgeIndex>::empty(),
    {
        SyndromePattern { syndrome_vertices, erasures: Vec::new() }
    }
}

/// The decoding graph: a number of vertices, weighted edges, and the virtual
/// (boundary) vertices that may absorb a matched chain.
pub struct SolverInitializer {
    /// number of vertices in the graph
    pub vertex_num: usize,
    /// undirected edges with non-negative weights
    pub weighted_edges: Vec<(VertexIndex, VertexIndex, Weight)>,
    /// vertices at the open boundary of the decoding graph
    pub virtual_vertices: Vec<VertexIndex>,
}

impl SolverInitializer {
    /// Whether every edge endpoint lies inside the graph and every weight is
    /// non-negative.
    pub open spec fn wf(self) -> bool {
        &&& forall|j: int|
            0 <= j < self.weighted_edges@.len() ==> {
                &&& (#[trigger] self.weighted_edges@[j]).0 < self.vertex_num
                &&& self.weighted_edges@[j].1 < self.vertex_num
                &&& 0 <= self.weighted_edges@[j].2
            }
        &&& forall|j: int|
            0 <= j < self.virtual_vertices@.len() ==> #[trigger] self.virtual_vertices@[j]
                < self.vertex_num
    }

    /// Runtime check of [`Self::wf`].
    pub fn check_wf(&self) -> (r: bool)
        ensures
            r == self.wf(),
    {
        let mut j: usize = 0;
        while j < self.weighted_edges.len()
            invariant
                j <= self.weighted_edges@.len(),
                forall|k: int|
                    0 <= k < j ==> {
                        &&& (#[trigger] self.weighted_edges@[k]).0 < self.vertex_num
                        &&& self.weighted_edges@[k].1 < self.vertex_num
                        &&& 0 <= self.weighted_edges@[k].2
                    },
            decreases self.weighted_edges@.len() - j,
        {
            let (u, v, w) = self.weighted_edges[j];
            if u >= self.vertex_num || v >= self.vertex_num || w < 0 {
                return false;
            }
            j += 1;
        }
        let mut k: usize = 0;
        while k < self.virtual_vertices.len()
            invariant
                k <= self.virtual_vertices@.len(),
                forall|j2: int|
                    0 <= j2 < k ==> #[trigger] self.virtual_vertices@[j2] < self.vertex_num,
                forall|j2: int|
                    0 <= j2 < self.weighted_edges@.len() ==> {
                        &&& (#[trigger] self.weighted_edges@[j2]).0 < self.vertex_num
                        &&& self.weighted_edges@[j2].1 < self.vertex_num
                        &&& 0 <= self.weighted_edges@[j2].2
                    },
            decreases self.virtual_vertices@.len() - k,
        {
            if self.virtual_vertices[k] >= self.vertex_num {
                return false;
            }
            k += 1;
        }
        true
    }
}

/// Why a decoding operation failed; all of these indicate caller bugs or
/// machine limits, and the decode that hit them is abandoned.
#[derive(Clone, Copy, PartialEq, Eq, Structural, Debug)]
pub enum BlossomError {
    /// a syndrome vertex was loaded twice
    DuplicateSyndrome(VertexIndex),
    /// the node arena outgrew its hard cap
    ArenaOverflow,
    /// a weight total left the representable range
    WeightOverflow,
    /// growth was asked for while conflicts stand
    UnexpectedConflicts,
    /// no growth and no conflicts: the backend reported nothing usable
    GrowthStalled,
    /// a structure the algorithm relies on was not in the expected state
    Corrupted,
}

/// A half-open range `[start, end)` of vertex indices.
#[derive(Clone, Copy, PartialEq, Eq, Structural, Debug)]
pub struct VertexRange {
    /// first vertex of the range
    pub start: VertexIndex,
    /// one past the last vertex of the range
    pub end: VertexIndex,
}

impl VertexRange {
    /// The half-open range `[start, end)`.
    pub fn new(start: VertexIndex, end: VertexIndex) -> (r: Self)
        requires
            start <= end,
        ensures
            r.start == start,
            r.end == end,
    {
        VertexRange { start, end }
    }

    /// Whether `v` lies inside the range.
    pub open spec fn spec_contains(self, v: VertexIndex) -> bool {
        self.start <= v < self.end
    }

    /// Runtime check of [`Self::spec_contains`].
    pub fn contains(&self, v: VertexIndex) -> (r: bool)
        ensures
            r == self.spec_contains(v),
    {
        self.start <= v && v < self.end
    }
}

/// How the decoding graph is split: the leaves' disjoint vertex ranges, and
/// the order in which pairs of units are fused.  Each fusion appends a new
/// unit whose children are the two referenced units; the last entry is the
/// root.
pub struct PartitionConfig {
    /// number of vertices of the whole graph
    pub vertex_num: usize,
    /// the leaves' vertex ranges, in ascending order of their start
    pub partitions: Vec<VertexRange>,
    /// pairs of unit indices fused, each appending one new unit
    pub fusions: Vec<(usize, usize)>,
}

impl PartitionConfig {
    /// A single partition covering the whole graph, with no fusion.
    pub fn new_default(vertex_num: usize) -> (r: Self)
        ensures
            r.vertex_num == vertex_num,
            r.partitions@.len() == 1,
            r.partitions@[0] == (VertexRange { start: 0, end: vertex_num }),
            r.fusions@.len() == 0,
    {
        let mut partitions: Vec<VertexRange> = Vec::new();
        partitions.push(VertexRange { start: 0, end: vertex_num });
        PartitionConfig { vertex_num, partitions, fusions: Vec::new() }
    }
}

/// Per-unit metadata derived from a [`PartitionConfig`].
pub struct PartitionUnitInfo {
    /// the range the unit itself loads syndrome vertices from: a leaf's own
    /// partition, or an inner unit's interface range
    pub owning_range: VertexRange,
    /// the full range the unit's subtree covers once it has fused
    pub whole_range: VertexRange,
    /// the two children fused into this unit, if it is an inner unit
    pub children: Option<(usize, usize)>,
    /// the unit this one is fused into, if any
    pub parent: Option<usize>,
}

/// The partition tree: one entry per unit, leaves first, and a map from each
/// vertex to the unit whose owning range holds it.
pub struct PartitionInfo {
    /// number of vertices of the whole graph
    pub vertex_num: usize,
    /// per-unit metadata, the fused units after the leaves
    pub units: Vec<PartitionUnitInfo>,
    /// for each vertex, the unit whose owning range holds it
    pub vertex_to_owning_unit: Vec<usize>,
}

impl PartitionConfig {
    /// Builds the partition tree.  Fails when a fusion names a missing or
    /// already-fused unit, when ranges overlap or leave a child uncovered,
    /// or when a vertex belongs to no unit.
    pub fn into_info(&self) -> (r: Option<PartitionInfo>)
        ensures
            r matches Some(info) ==> {
                &&& info.vertex_num == self.vertex_num
                &&& info.units@.len() == self.partitions@.len() + self.fusions@.len()
                &&& info.vertex_to_owning_unit@.len() == self.vertex_num
                &&& forall|u: int|
                    0 <= u < info.units@.len() ==> ((#[trigger] info.units@[u]).children
                        matches Some(c) ==> c.0 < u && c.1 < u)
                &&& forall|u: int|
                    0 <= u < self.partitions@.len() ==> {
                        &&& (#[trigger] info.units@[u]).owning_range == self.partitions@[u]
                        &&& info.units@[u].whole_range == self.partitions@[u]
                        &&& info.units@[u].children is None
                    }
                &&& forall|f: int|
                    0 <= f < self.fusions@.len() ==> (#[trigger] info.units@[self.partitions@.len() + f]).children == Some(
                        ((#[trigger] self.fusions@[f]).0, self.fusions@[f].1),
                    )
                &&& forall|v: int|
                    0 <= v < self.vertex_num ==> #[trigger] info.vertex_to_owning_unit@[v]
                        < info.units@.len()
                &&& forall|v: int|
                    0 <= v < self.vertex_num ==> info.units@[(
                    #[trigger] info.vertex_to_owning_unit@[v]) as int].owning_range.spec_contains(
                        v as VertexIndex,
                    )
                &&& forall|v: int, u: int|
                    0 <= v < self.vertex_num && 0 <= u < info.units@.len() && (
                    #[trigger] info.units@[u]).owning_range.spec_contains(v as VertexIndex)
                        ==> u == #[trigger] info.vertex_to_owning_unit@[v]
            },
    {
        let leaf_count: usize = self.partitions.len();
        if leaf_count == 0 {
            return None;
        }
        if self.fusions.len() >= usize::MAX - leaf_count {
            return None;
        }
        let unit_count: usize = leaf_count + self.fusions.len();
        let mut owning: Vec<VertexRange> = Vec::new();
        let mut whole: Vec<VertexRange> = Vec::new();
        let mut children_of: Vec<Option<(usize, usize)>> = Vec::new();
        let mut parent_of: Vec<Option<usize>> = Vec::new();
        let mut i: usize = 0;
        while i < leaf_count
            invariant
                owning@.len() == i && whole@.len() == i,
                children_of@.len() == i && parent_of@.len() == i,
                i <= leaf_count,
                leaf_count == self.partitions@.len(),
                forall|u: int| 0 <= u < i ==> (#[trigger] children_of@[u]) is None,
                forall|u: int|
                    0 <= u < i ==> (#[trigger] owning@[u]) == self.partitions@[u] && whole@[u]
                        == self.partitions@[u],
            decreases leaf_count - i,
        {
            let range = self.partitions[i];
            if range.start > range.end || range.end > self.vertex_num {
                return None;
            }
            owning.push(range);
            whole.push(range);
            children_of.push(None);
            parent_of.push(None);
            i += 1;
        }
        let mut f: usize = 0;
        while f < self.fusions.len()
            invariant
                owning@.len() == leaf_count + f && whole@.len() == leaf_count + f,
                children_of@.len() == leaf_count + f && parent_of@.len() == leaf_count + f,
                f <= self.fusions@.len(),
                leaf_count == self.partitions@.len(),
                leaf_count + self.fusions@.len() == unit_count,
                unit_count < usize::MAX,
                forall|u: int|
                    0 <= u < children_of@.len() ==> ((#[trigger] children_of@[u]) matches Some(
                        c,
                    ) ==> c.0 < u && c.1 < u),
                forall|u: int|
                    0 <= u < leaf_count ==> (#[trigger] owning@[u]) == self.partitions@[u]
                        && whole@[u] == self.partitions@[u] && children_of@[u] is None,
                forall|f2: int|
                    0 <= f2 < f ==> (#[trigger] children_of@[leaf_count + f2]) == Some(
                        ((#[trigger] self.fusions@[f2]).0, self.fusions@[f2].1),
                    ),
            decreases self.fusions@.len() - f,
        {
            let (left, right) = self.fusions[f];
            let new_index: usize = leaf_count + f;
            if left >= new_index || right >= new_index {
                return None;
            }
            if parent_of[left].is_some() || parent_of[right].is_some() {
                return None;
            }
            let lw = whole[left];
            let rw = whole[right];
            // children must be adjacent blocks, left strictly below right,
            // with the interface range between their whole ranges
            if lw.end > rw.start {
                return None;
            }
            parent_of.set(left, Some(new_index));
            parent_of.set(right, Some(new_index));
            owning.push(VertexRange { start: lw.end, end: rw.start });
            whole.push(VertexRange { start: lw.start, end: rw.end });
            children_of.push(Some((left, right)));
            parent_of.push(None);
            f += 1;
        }
        let mut units: Vec<PartitionUnitInfo> = Vec::new();
        let mut u: usize = 0;
        while u < unit_count
            invariant
                units@.len() == u,
                u <= unit_count,
                leaf_count == self.partitions@.len(),
                leaf_count + self.fusions@.len() == unit_count,
                owning@.len() == unit_count && whole@.len() == unit_count,
                children_of@.len() == unit_count && parent_of@.len() == unit_count,
                forall|k: int|
                    0 <= k < children_of@.len() ==> ((#[trigger] children_of@[k]) matches Some(
                        c,
                    ) ==> c.0 < k && c.1 < k),
                forall|k: int|
                    0 <= k < u ==> (#[trigger] units@[k]).children == children_of@[k],
                forall|k: int|
                    0 <= k < u ==> (#[trigger] units@[k]).owning_range == owning@[k]
                        && units@[k].whole_range == whole@[k],
                forall|k: int|
                    0 <= k < leaf_count ==> (#[trigger] owning@[k]) == self.partitions@[k]
                        && whole@[k] == self.partitions@[k] && children_of@[k] is None,
                forall|f2: int|
                    0 <= f2 < self.fusions@.len() ==> (#[trigger] children_of@[leaf_count
                        + f2]) == Some(
                        ((#[trigger] self.fusions@[f2]).0, self.fusions@[f2].1),
                    ),
            decreases unit_count - u,
        {
            units.push(
                PartitionUnitInfo {
                    owning_range: owning[u],
                    whole_range: whole[u],
                    children: children_of[u],
                    parent: parent_of[u],
                },
            );
            u += 1;
        }
        // the owning ranges must tile the whole graph
        let mut vertex_to_owning_unit: Vec<usize> = Vec::new();
        let mut v: usize = 0;
        while v < self.vertex_num
            invariant
                vertex_to_owning_unit@.len() == v,
                v <= self.vertex_num,
                units@.len() == unit_count,
                leaf_count == self.partitions@.len(),
                unit_count == self.partitions@.len() + self.fusions@.len(),
                forall|k: int|
                    0 <= k < v ==> #[trigger] vertex_to_owning_unit@[k] < unit_count,
                forall|k: int|
                    0 <= k < units@.len() ==> ((#[trigger] units@[k]).children matches Some(
                        c,
                    ) ==> c.0 < k && c.1 < k),
                forall|k: int|
                    0 <= k < leaf_count ==> (#[trigger] units@[k]).owning_range
                        == self.partitions@[k] && units@[k].whole_range == self.partitions@[k]
                        && units@[k].children is None,
                forall|f2: int|
                    0 <= f2 < self.fusions@.len() ==> (#[trigger] units@[(leaf_count
                        + f2) as int]).children == Some(
                        ((#[trigger] self.fusions@[f2]).0, self.fusions@[f2].1),
                    ),
                forall|k: int|
                    0 <= k < v ==> units@[(
                    #[trigger] vertex_to_owning_unit@[k]) as int].owning_range.spec_contains(
                        k as VertexIndex,
                    ),
                forall|k: int, uu: int|
                    0 <= k < v && 0 <= uu < units@.len() && (
                    #[trigger] units@[uu]).owning_range.spec_contains(k as VertexIndex) ==> uu
                        == #[trigger] vertex_to_owning_unit@[k],
            decreases self.vertex_num - v,
        {
            let mut owner: Option<usize> = None;
            let mut k: usize = 0;
            while k < units.len()
                invariant
                    k <= units@.len(),
                    units@.len() == unit_count,
                    owner matches Some(o) ==> o < k && units@[o as int].owning_range.spec_contains(
                        v as VertexIndex,
                    ),
                    forall|uu: int|
                        0 <= uu < k && (#[trigger] units@[uu]).owning_range.spec_contains(
                            v as VertexIndex,
                        ) ==> owner == Some(uu as usize),
                decreases units@.len() - k,
            {
                if units[k].owning_range.contains(v) {
                    if owner.is_some() {
                        return None;
                    }
                    owner = Some(k);
                }
                k += 1;
            }
            match owner {
                Some(o) => {
                    vertex_to_owning_unit.push(o);
                },
                None => {
                    return None;
                },
            }
            v += 1;
        }
        Some(PartitionInfo { vertex_num: self.vertex_num, units, vertex_to_owning_unit })
    }
}

} // verus!
