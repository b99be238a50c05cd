//! End-to-end decoding scenarios on code-capacity planar surface codes,
//! single-partition and fused.

use fusion_blossom::util::PartitionConfig;
use fusion_blossom::util::SolverInitializer;
use fusion_blossom::util::SyndromePattern;
use fusion_blossom::util::VertexRange;
use fusion_blossom::dual_module_graph::DualModuleParallel;
use fusion_blossom::primal_module_parallel::PrimalModuleParallel;
use fusion_blossom::primal_module_parallel::PrimalModuleParallelConfig;

/// The code-capacity planar code of odd distance `d`: `d` rows of `d+1`
/// vertices; in each row the columns `0..d-1` are real, column `d-1` is the
/// right boundary and column `d` the left boundary.
fn planar_code_initializer(d: usize, half_weight: i64) -> SolverInitializer {
    let row_len = d + 1;
    let weight = 2 * half_weight;
    let mut weighted_edges: Vec<(usize, usize, i64)> = Vec::new();
    let mut virtual_vertices: Vec<usize> = Vec::new();
    for i in 0..d {
        let base = i * row_len;
        virtual_vertices.push(base + d - 1);
        virtual_vertices.push(base + d);
        // the real chain of the row
        for j in 0..d.saturating_sub(2) {
            weighted_edges.push((base + j, base + j + 1, weight));
        }
        // boundary edges
        weighted_edges.push((base + d - 2, base + d - 1, weight));
        weighted_edges.push((base, base + d, weight));
        // vertical edges to the next row
        if i + 1 < d {
            for j in 0..d - 1 {
                weighted_edges.push((base + j, base + row_len + j, weight));
            }
        }
    }
    SolverInitializer { vertex_num: d * row_len, weighted_edges, virtual_vertices }
}

/// Relabels vertices: new index `k` is old vertex `reordered_vertices[k]`.
fn reorder_initializer(
    initializer: &SolverInitializer,
    reordered_vertices: &Vec<usize>,
) -> SolverInitializer {
    let mut position = vec![0usize; initializer.vertex_num];
    for (new_index, old) in reordered_vertices.iter().enumerate() {
        position[*old] = new_index;
    }
    let weighted_edges = initializer
        .weighted_edges
        .iter()
        .map(|(u, v, w)| (position[*u], position[*v], *w))
        .collect();
    let virtual_vertices = initializer.virtual_vertices.iter().map(|v| position[*v]).collect();
    SolverInitializer { vertex_num: initializer.vertex_num, weighted_edges, virtual_vertices }
}

fn translated_syndrome_to_reordered(
    reordered_vertices: &Vec<usize>,
    old_syndrome: &Vec<usize>,
) -> Vec<usize> {
    let mut position = vec![0usize; reordered_vertices.len()];
    for (new_index, old) in reordered_vertices.iter().enumerate() {
        position[*old] = new_index;
    }
    old_syndrome.iter().map(|v| position[*v]).collect()
}

/// Builds the decoder over the given partition, solves the syndrome, checks
/// the final dual total of the root interface.
fn primal_module_parallel_standard_syndrome(
    d: usize,
    half_weight: i64,
    syndrome_vertices: Vec<usize>,
    final_dual: i64,
    partitions: Vec<(usize, usize)>,
    fusions: Vec<(usize, usize)>,
    reordered_vertices: Option<Vec<usize>>,
) {
    let mut initializer = planar_code_initializer(d, half_weight);
    let mut syndrome = syndrome_vertices;
    if let Some(ref reorder) = reordered_vertices {
        initializer = reorder_initializer(&initializer, reorder);
        syndrome = translated_syndrome_to_reordered(reorder, &syndrome);
    }
    let partitions = partitions
        .iter()
        .map(|(start, end)| VertexRange::new(*start, *end))
        .collect::<Vec<_>>();
    let config = PartitionConfig {
        vertex_num: initializer.vertex_num,
        partitions,
        fusions,
    };
    let partition_info = config.into_info().expect("partition config must be consistent");
    let mut dual_module = DualModuleParallel::new_config(&initializer, &partition_info);
    let mut primal_config = PrimalModuleParallelConfig::default();
    primal_config.debug_sequential = true;
    let mut primal_module =
        PrimalModuleParallel::new_config(&initializer, partition_info, primal_config)
            .expect("partition info must fit the graph");
    let pattern = SyndromePattern::new_vertices(syndrome);
    primal_module
        .parallel_solve(&pattern, &mut dual_module)
        .expect("the decode must run to completion");
    assert_eq!(
        primal_module.root_sum_dual_variables(),
        final_dual * 2,
        "unexpected final dual variable sum"
    );
}

/// test a simple case
#[test]
fn primal_module_parallel_basic_1() {
    let syndrome_vertices = vec![39, 52, 63, 90, 100];
    let half_weight = 500;
    primal_module_parallel_standard_syndrome(
        11,
        half_weight,
        syndrome_vertices,
        9 * half_weight,
        vec![(0, 132)],
        vec![],
        None,
    );
}

/// split into 2, with no syndrome vertex on the interface
#[test]
fn primal_module_parallel_basic_2() {
    let syndrome_vertices = vec![39, 52, 63, 90, 100];
    let half_weight = 500;
    primal_module_parallel_standard_syndrome(
        11,
        half_weight,
        syndrome_vertices,
        9 * half_weight,
        vec![(0, 72), (84, 132)],
        vec![(0, 1)],
        None,
    );
}

/// split into 2, with a syndrome vertex on the interface
#[test]
fn primal_module_parallel_basic_3() {
    let syndrome_vertices = vec![39, 52, 63, 90, 100];
    let half_weight = 500;
    primal_module_parallel_standard_syndrome(
        11,
        half_weight,
        syndrome_vertices,
        9 * half_weight,
        vec![(0, 60), (72, 132)],
        vec![(0, 1)],
        None,
    );
}

fn reorder_four_way(split_horizontal: usize, split_vertical: usize) -> Vec<usize> {
    let mut reordered_vertices = vec![];
    for i in 0..split_horizontal {
        // left-top block
        for j in 0..split_vertical {
            reordered_vertices.push(i * 12 + j);
        }
        reordered_vertices.push(i * 12 + 11);
    }
    for i in 0..split_horizontal {
        // interface between the left-top and right-top blocks
        reordered_vertices.push(i * 12 + split_vertical);
    }
    for i in 0..split_horizontal {
        // right-top block
        for j in (split_vertical + 1)..10 {
            reordered_vertices.push(i * 12 + j);
        }
        reordered_vertices.push(i * 12 + 10);
    }
    {
        // the big interface between top and bottom
        for j in 0..12 {
            reordered_vertices.push(split_horizontal * 12 + j);
        }
    }
    for i in (split_horizontal + 1)..11 {
        // left-bottom block
        for j in 0..split_vertical {
            reordered_vertices.push(i * 12 + j);
        }
        reordered_vertices.push(i * 12 + 11);
    }
    for i in (split_horizontal + 1)..11 {
        // interface between the left-bottom and right-bottom blocks
        reordered_vertices.push(i * 12 + split_vertical);
    }
    for i in (split_horizontal + 1)..11 {
        // right-bottom block
        for j in (split_vertical + 1)..10 {
            reordered_vertices.push(i * 12 + j);
        }
        reordered_vertices.push(i * 12 + 10);
    }
    reordered_vertices
}

/// split into 4, with no syndrome vertex on the interface
#[test]
fn primal_module_parallel_basic_4() {
    // indices are before the reorder
    let syndrome_vertices = vec![39, 52, 63, 90, 100];
    let half_weight = 500;
    primal_module_parallel_standard_syndrome(
        11,
        half_weight,
        syndrome_vertices,
        9 * half_weight,
        vec![(0, 36), (42, 72), (84, 108), (112, 132)],
        vec![(0, 1), (2, 3), (4, 5)],
        Some(reorder_four_way(6, 5)),
    );
}

/// split into 4, with 2 syndrome vertices on parent interfaces
#[test]
fn primal_module_parallel_basic_5() {
    // indices are before the reorder
    let syndrome_vertices = vec![39, 52, 63, 90, 100];
    let half_weight = 500;
    primal_module_parallel_standard_syndrome(
        11,
        half_weight,
        syndrome_vertices,
        9 * half_weight,
        vec![(0, 25), (30, 60), (72, 97), (102, 132)],
        vec![(0, 1), (2, 3), (4, 5)],
        Some(reorder_four_way(5, 4)),
    );
}

fn primal_module_parallel_debug_planar_code_common(
    d: usize,
    syndrome_vertices: Vec<usize>,
    final_dual: i64,
) {
    let half_weight = 500;
    let split_horizontal = (d + 1) / 2;
    let row_count = d + 1;
    let vertex_num = d * (d + 1);
    primal_module_parallel_standard_syndrome(
        d,
        half_weight,
        syndrome_vertices,
        final_dual * half_weight,
        vec![
            (0, split_horizontal * row_count),
            ((split_horizontal + 1) * row_count, vertex_num),
        ],
        vec![(0, 1)],
        None,
    );
}

/// a 2-way horizontal partition with syndrome vertices on the interface
#[test]
fn primal_module_parallel_debug_1() {
    // indices are before the reorder
    let syndrome_vertices = vec![88, 89, 102, 103, 105, 106, 118, 120, 122, 134, 138];
    primal_module_parallel_debug_planar_code_common(15, syndrome_vertices, 10);
}
