use vstd::prelude::*;

use std::collections::HashMap;

use crate::entry::{
    offsets_ordered,
    offsets_within,
    run_start,
    run_stop,
    CacheEntry,
    COORDINATE_DIMS,
    DENSITY_ESTIMATES,
    SPLINE_COMPONENTS,
    SPLINE_ROW,
};

verus! {

broadcast use vstd::std_specs::hash::group_hash_axioms;

/// Why a level-of-detail step could not be computed.
#[derive(Debug, Clone, Copy, PartialEq, Eq)]
pub enum LodError {
    /// A leaf id returned by the spatial index, or a particle id in a selected run,
    /// lies outside the entry's arrays.
    IndexOutOfRange,
}

/// The smaller of `a` and `b`.
pub open spec fn min_int(a: int, b: int) -> int {
    if a <= b {
        a
    } else {
        b
    }
}

/// Batch index of `leaf` in a client's progress: 0 when the leaf was never seen.
pub open spec fn level(progress: Map<i64, i64>, leaf: i64) -> int {
    if progress.contains_key(leaf) {
        progress[leaf] as int
    } else {
        0
    }
}

/// Every batch index is non-negative and can still be raised `visits` times.
pub open spec fn progress_valid(progress: Map<i64, i64>, visits: int) -> bool {
    forall|leaf: i64| #[trigger]
        progress.contains_key(leaf) ==> 0 <= progress[leaf] <= i64::MAX - visits
}

/// Every leaf id lies in `[0, num_leaves)`.
pub open spec fn leaves_in_range(leaves: Seq<i64>, num_leaves: int) -> bool {
    forall|k: int| 0 <= k < leaves.len() ==> 0 <= #[trigger] leaves[k] < num_leaves
}

/// Start position, in the particle order, of batch `b` of a run `[start, stop)` cut
/// into batches of `size` particles.
pub open spec fn batch_bound(start: int, stop: int, b: int, size: int) -> int {
    min_int(start + b * size, stop)
}

/// The particle ids of batch `b` of leaf `leaf`; empty once the run is exhausted.
pub open spec fn leaf_batch(
    order: Seq<i64>,
    offsets: Seq<i64>,
    leaf: int,
    b: int,
    size: int,
) -> Seq<i64> {
    let start = run_start(offsets, leaf);
    let stop = run_stop(offsets, order.len() as int, leaf);
    order.subrange(batch_bound(start, stop, b, size), batch_bound(start, stop, b + 1, size))
}

/// For each leaf, its batch at its current level in `progress`.
pub open spec fn current_batch(
    order: Seq<i64>,
    offsets: Seq<i64>,
    progress: Map<i64, i64>,
    size: int,
) -> spec_fn(i64) -> Seq<i64> {
    |leaf: i64| leaf_batch(order, offsets, leaf as int, level(progress, leaf), size)
}

/// The particle ids emitted for the visible leaves, in their order: each leaf gives the
/// batch at its current level.
pub open spec fn selected_particles(
    order: Seq<i64>,
    offsets: Seq<i64>,
    leaves: Seq<i64>,
    progress: Map<i64, i64>,
    size: int,
) -> Seq<i64> {
    leaves.flat_map(current_batch(order, offsets, progress, size))
}

/// Progress after visiting `leaves` in order: each visit records the leaf at its level
/// plus one, whether or not the visit emitted any particle.
pub open spec fn advanced(progress: Map<i64, i64>, leaves: Seq<i64>) -> Map<i64, i64>
    decreases leaves.len(),
{
    if leaves.len() == 0 {
        progress
    } else {
        let before = advanced(progress, leaves.drop_last());
        before.insert(leaves.last(), (level(before, leaves.last()) + 1) as i64)
    }
}

/// Batch `b` of a run ends where batch `b + 1` starts, never before it.
pub proof fn lemma_batch_bounds_ordered(start: int, stop: int, b: int, size: int)
    requires
        start <= stop,
        0 <= b,
        0 <= size,
    ensures
        start <= batch_bound(start, stop, b, size) <= batch_bound(start, stop, b + 1, size) <= stop,
{
    assert(0 <= b * size <= (b + 1) * size) by (nonlinear_arith)
        requires
            0 <= b,
            0 <= size,
    ;
}

/// `min(start + b * size, stop)`, computed without overflow.
fn bound_of_batch(start: usize, stop: usize, b: i128, size: i64) -> (r: usize)
    requires
        start <= stop,
        0 <= b <= i64::MAX + 1,
        0 <= size,
    ensures
        r == batch_bound(start as int, stop as int, b as int, size as int),
        start <= r <= stop,
{
    assert(0 <= b * size <= (i64::MAX + 1) * i64::MAX) by (nonlinear_arith)
        requires
            0 <= b <= i64::MAX + 1,
            0 <= size <= i64::MAX,
    ;
    let end = start as i128 + b * size as i128;
    if end < stop as i128 {
        end as usize
    } else {
        stop
    }
}

/// The particles to emit for the visible leaves `leaves`, given a client's progress.
///
/// Each leaf contributes the batch at its current level (0 when the client never saw
/// it), in the order in which the leaves are given. Fails when a leaf id lies outside
/// the entry's leaves.
pub fn select_particles<T, I>(
    entry: &CacheEntry<T, I>,
    leaves: &Vec<i64>,
    batch_size: i64,
    progress: &HashMap<i64, i64>,
) -> (r: Result<Vec<i64>, LodError>)
    requires
        batch_size >= 0,
        progress_valid(progress@, 0),
    ensures
        r is Ok <==> leaves_in_range(leaves@, entry.num_leaves()),
        r matches Ok(ids) ==> ids@ == selected_particles(
            entry.particle_order(),
            entry.leaf_offsets(),
            leaves@,
            progress@,
            batch_size as int,
        ),
{
    let num_leaves = entry.leaf_count();
    let ghost order = entry.particle_order();
    let ghost offsets = entry.leaf_offsets();
    let ghost batch = current_batch(order, offsets, progress@, batch_size as int);
    let mut ids: Vec<i64> = Vec::new();
    let mut k: usize = 0;
    while k < leaves.len()
        invariant
            k <= leaves@.len(),
            num_leaves == entry.num_leaves(),
            batch_size >= 0,
            progress_valid(progress@, 0),
            order == entry.particle_order(),
            offsets == entry.leaf_offsets(),
            batch == current_batch(order, offsets, progress@, batch_size as int),
            leaves_in_range(leaves@.subrange(0, k as int), num_leaves as int),
            ids@ == leaves@.subrange(0, k as int).flat_map(batch),
        decreases leaves.len() - k,
    {
        let leaf = leaves[k];
        if leaf < 0 || leaf as u64 >= num_leaves as u64 {
            proof {
                assert(leaves@[k as int] == leaf);
            }
            return Err(LodError::IndexOutOfRange);
        }
        let (start, stop) = entry.leaf_run(leaf as usize);
        let b: i64 = match progress.get(&leaf) {
            Some(v) => *v,
            None => 0,
        };
        let lo = bound_of_batch(start, stop, b as i128, batch_size);
        let hi = bound_of_batch(start, stop, b as i128 + 1, batch_size);
        proof {
            lemma_batch_bounds_ordered(start as int, stop as int, b as int, batch_size as int);
        }
        let mut run = entry.particles_in(lo, hi);
        let ghost before = ids@;
        ids.append(&mut run);
        proof {
            assert(b == level(progress@, leaf));
            assert(leaf as usize as int == leaf as int);
            assert(run_start(offsets, leaf as int) == start);
            assert(batch(leaf) == order.subrange(lo as int, hi as int));
            assert(ids@ == before + batch(leaf));
            let done = leaves@.subrange(0, k as int);
            assert(leaves@.subrange(0, k as int + 1) =~= done.push(leaf));
            done.lemma_flat_map_push(batch, leaf);
            assert forall|j: int| 0 <= j < k + 1 implies 0 <= #[trigger] leaves@.subrange(
                0,
                k as int + 1,
            )[j] < num_leaves by {
                if j < k {
                    assert(leaves@.subrange(0, k as int + 1)[j] == done[j]);
                }
            }
        }
        k = k + 1;
    }
    proof {
        assert(leaves@.subrange(0, leaves@.len() as int) =~= leaves@);
    }
    Ok(ids)
}

/// Whether every batch index in `progress` is non-negative and can still be raised
/// `visits` times.
pub fn progress_fits(progress: &HashMap<i64, i64>, visits: usize) -> (r: bool)
    ensures
        r == progress_valid(progress@, visits as int),
{
    let bound: i128 = i64::MAX as i128 - visits as i128;
    let leaves = tracked_leaves(progress);
    let mut k: usize = 0;
    while k < leaves.len()
        invariant
            k <= leaves@.len(),
            bound == i64::MAX - visits,
            leaves@.to_set() == progress@.dom(),
            forall|j: int|
                0 <= j < k ==> 0 <= progress@[#[trigger] leaves@[j]] <= i64::MAX - visits,
        decreases leaves.len() - k,
    {
        let leaf = leaves[k];
        assert(leaves@.to_set().contains(leaf));
        let level = match progress.get(&leaf) {
            Some(v) => *v,
            None => 0,
        };
        if level < 0 || level as i128 > bound {
            return false;
        }
        k = k + 1;
    }
    assert forall|leaf: i64| #[trigger] progress@.contains_key(leaf) implies 0 <= progress@[leaf]
        <= i64::MAX - visits by {
        assert(leaves@.to_set().contains(leaf));
        let j = choose|j: int| 0 <= j < leaves@.len() && leaves@[j] == leaf;
    }
    true
}

/// Records one visit of each leaf of `leaves`: a leaf the client never saw enters at
/// level 0 and then, like every visited leaf, moves up one level.
pub fn advance_progress(progress: &mut HashMap<i64, i64>, leaves: &Vec<i64>)
    requires
        leaves@.len() <= i64::MAX,
        progress_valid(old(progress)@, leaves@.len() as int),
    ensures
        final(progress)@ == advanced(old(progress)@, leaves@),
{
    let ghost start = progress@;
    let mut k: usize = 0;
    while k < leaves.len()
        invariant
            k <= leaves@.len(),
            progress@ == advanced(start, leaves@.subrange(0, k as int)),
            progress_valid(progress@, leaves@.len() - k),
            leaves@.len() <= i64::MAX,
        decreases leaves.len() - k,
    {
        let leaf = leaves[k];
        let current: i64 = match progress.get(&leaf) {
            Some(v) => *v,
            None => 0,
        };
        let ghost prior = progress@;
        progress.insert(leaf, current + 1);
        proof {
            assert forall|other: i64| #[trigger]
                progress@.contains_key(other) implies 0 <= progress@[other] <= i64::MAX - (
                leaves@.len() - (k + 1)) by {
                if other != leaf {
                    assert(prior.contains_key(other));
                } else {
                    assert(progress@[other] == current + 1);
                }
            }
            let done = leaves@.subrange(0, k as int + 1);
            assert(done.drop_last() =~= leaves@.subrange(0, k as int));
            assert(done.last() == leaf);
        }
        k = k + 1;
    }
    proof {
        assert(leaves@.subrange(0, leaves@.len() as int) =~= leaves@);
    }
}

/// Every particle id lies in `[0, count)`.
pub open spec fn particles_in_range(ids: Seq<i64>, count: int) -> bool {
    forall|k: int| 0 <= k < ids.len() ==> 0 <= #[trigger] ids[k] < count
}

/// The `width` values at columns `offset..offset + width` of row `id` of a table
/// flattened row by row with `stride` values per row.
pub open spec fn row_slice<T>(table: Seq<T>, stride: int, offset: int, width: int, id: i64) -> Seq<T> {
    table.subrange(id * stride + offset, id * stride + offset + width)
}

pub open spec fn row_slices<T>(table: Seq<T>, stride: int, offset: int, width: int) -> spec_fn(
    i64,
) -> Seq<T> {
    |id: i64| row_slice(table, stride, offset, width, id)
}

/// The rows `ids` of a flattened table, cut to columns `offset..offset + width`,
/// concatenated in the order of `ids`.
pub open spec fn gathered<T>(table: Seq<T>, ids: Seq<i64>, stride: int, offset: int, width: int) -> Seq<
    T,
> {
    ids.flat_map(row_slices(table, stride, offset, width))
}

/// Whether every particle id lies in `[0, count)`.
pub fn particles_valid(ids: &Vec<i64>, count: usize) -> (r: bool)
    ensures
        r == particles_in_range(ids@, count as int),
{
    let mut k: usize = 0;
    while k < ids.len()
        invariant
            k <= ids@.len(),
            particles_in_range(ids@.subrange(0, k as int), count as int),
        decreases ids.len() - k,
    {
        let id = ids[k];
        if id < 0 || id as u64 >= count as u64 {
            assert(ids@[k as int] == id);
            return false;
        }
        assert forall|j: int| 0 <= j < k + 1 implies 0 <= #[trigger] ids@.subrange(
            0,
            k as int + 1,
        )[j] < count by {
            if j < k {
                assert(ids@.subrange(0, k as int + 1)[j] == ids@.subrange(0, k as int)[j]);
            }
        }
        k = k + 1;
    }
    assert(ids@.subrange(0, ids@.len() as int) =~= ids@);
    true
}

/// The values at positions `lo..hi` of `table`.
fn copy_range<T: Copy>(table: &Vec<T>, lo: usize, hi: usize) -> (r: Vec<T>)
    requires
        lo <= hi <= table@.len(),
    ensures
        r@ == table@.subrange(lo as int, hi as int),
{
    let mut r: Vec<T> = Vec::new();
    let mut i: usize = lo;
    while i < hi
        invariant
            lo <= i <= hi <= table@.len(),
            r@ == table@.subrange(lo as int, i as int),
        decreases hi - i,
    {
        r.push(table[i]);
        assert(table@.subrange(lo as int, i as int + 1) =~= table@.subrange(lo as int, i as int).push(
            table@[i as int],
        ));
        i = i + 1;
    }
    r
}

/// Gathers, for each particle id in `ids` in order, the `width` values at columns
/// `offset..offset + width` of its row of a table flattened with `stride` values per row.
pub fn gather_rows<T: Copy>(
    table: &Vec<T>,
    ids: &Vec<i64>,
    stride: usize,
    offset: usize,
    width: usize,
) -> (r: Vec<T>)
    requires
        0 < stride,
        forall|k: int|
            0 <= k < ids@.len() ==> 0 <= #[trigger] ids@[k] && ids@[k] * stride + offset + width
                <= table@.len(),
    ensures
        r@ == gathered(table@, ids@, stride as int, offset as int, width as int),
{
    let ghost rows = row_slices(table@, stride as int, offset as int, width as int);
    let mut r: Vec<T> = Vec::new();
    let mut k: usize = 0;
    while k < ids.len()
        invariant
            k <= ids@.len(),
            0 < stride,
            rows == row_slices(table@, stride as int, offset as int, width as int),
            forall|j: int|
                0 <= j < ids@.len() ==> 0 <= #[trigger] ids@[j] && ids@[j] * stride + offset + width
                    <= table@.len(),
            r@ == ids@.subrange(0, k as int).flat_map(rows),
        decreases ids.len() - k,
    {
        let id = ids[k];
        assert(0 <= ids@[k as int] && ids@[k as int] * stride + offset + width <= table@.len());
        assert(id <= id * stride) by (nonlinear_arith)
            requires
                0 <= id,
                0 < stride,
        ;
        let total = table.len();
        assert(id <= total);
        let start = id as usize * stride + offset;
        let mut row = copy_range(table, start, start + width);
        r.append(&mut row);
        proof {
            let done = ids@.subrange(0, k as int);
            assert(ids@.subrange(0, k as int + 1) =~= done.push(id));
            done.lemma_flat_map_push(rows, id);
        }
        k = k + 1;
    }
    assert(ids@.subrange(0, ids@.len() as int) =~= ids@);
    r
}

/// The leaf ids tracked in a client's progress, each once, in the map's iteration order.
pub fn tracked_leaves(progress: &HashMap<i64, i64>) -> (r: Vec<i64>)
    ensures
        r@.to_set() == progress@.dom(),
        r@.no_duplicates(),
{
    let mut r: Vec<i64> = Vec::new();
    assert(r@.to_set() =~= Set::<i64>::empty());
    for leaf in it: progress.keys()
        invariant
            it.seq().unref().to_set() == progress@.dom(),
            it.seq().unref().no_duplicates(),
            r@ == it.seq().unref().subrange(0, it.index()),
            it.index() == it.seq().len() ==> r@.to_set() == progress@.dom(),
    {
        assert(it.seq().unref().subrange(0, it.index() + 1) =~= r@.push(*leaf));
        r.push(*leaf);
        assert(it.seq().unref().subrange(0, it.seq().len() as int) =~= it.seq().unref());
    }
    r
}

/// The outcome of one level-of-detail step: for the emitted particles, in emission
/// order, their gathered per-particle values, and the client's whole updated progress.
pub struct LodResult<T> {
    /// Spline group a, three components per particle.
    pub splines_a: Vec<T>,
    /// Spline group b, three components per particle.
    pub splines_b: Vec<T>,
    /// Spline group c, three components per particle.
    pub splines_c: Vec<T>,
    /// Spline group d, three components per particle.
    pub splines_d: Vec<T>,
    /// The first density estimate of every emitted particle, then the second.
    pub relevant_densities_flat: Vec<T>,
    /// Three coordinates per particle.
    pub relevant_coordinates: Vec<T>,
    /// The auxiliary scalar of each particle.
    pub relevant_voronoi_diameter_extended: Vec<T>,
    /// The client's progress after this step, over every leaf it tracks.
    pub client_level_of_detail: HashMap<i64, i64>,
    /// Number of emitted particles.
    pub n_particles: usize,
    /// The snapshot id, echoed.
    pub snapshot_id: usize,
    /// Every leaf tracked in the updated progress, each once.
    pub node_indices: Vec<i64>,
}

/// The particle ids that a step emits for the visible leaves `leaves`.
pub open spec fn emitted<T, I>(
    entry: CacheEntry<T, I>,
    leaves: Seq<i64>,
    progress: Map<i64, i64>,
    size: int,
) -> Seq<i64> {
    selected_particles(entry.particle_order(), entry.leaf_offsets(), leaves, progress, size)
}

/// `res` is the result of a step on `entry` for the visible leaves `leaves`, a client
/// progress `progress` and batches of `size` particles.
pub open spec fn is_lod_result<T, I>(
    entry: CacheEntry<T, I>,
    leaves: Seq<i64>,
    progress: Map<i64, i64>,
    size: int,
    snapshot_id: usize,
    res: LodResult<T>,
) -> bool {
    let ids = emitted(entry, leaves, progress, size);
    let row = SPLINE_ROW as int;
    let part = SPLINE_COMPONENTS as int;
    let dims = COORDINATE_DIMS as int;
    &&& res.n_particles == ids.len()
    &&& res.splines_a@ == gathered(entry.splines(), ids, row, 0, part)
    &&& res.splines_b@ == gathered(entry.splines(), ids, row, part, part)
    &&& res.splines_c@ == gathered(entry.splines(), ids, row, 2 * part, part)
    &&& res.splines_d@ == gathered(entry.splines(), ids, row, 3 * part, part)
    &&& res.relevant_densities_flat@ == gathered(entry.densities(), ids, 1, 0, 1) + gathered(
        entry.densities(),
        ids,
        1,
        entry.particle_count(),
        1,
    )
    &&& res.relevant_coordinates@ == gathered(entry.coordinates(), ids, dims, 0, dims)
    &&& res.relevant_voronoi_diameter_extended@ == gathered(entry.extra_scalar(), ids, 1, 0, 1)
    &&& res.client_level_of_detail@ == advanced(progress, leaves)
    &&& res.snapshot_id == snapshot_id
    &&& res.node_indices@.to_set() == advanced(progress, leaves).dom()
    &&& res.node_indices@.no_duplicates()
}

/// Row `id` of a table with `count` rows of `stride` values holds columns
/// `offset..offset + width`.
proof fn lemma_row_within(id: int, count: int, stride: int, offset: int, width: int)
    requires
        0 <= id < count,
        0 <= offset,
        0 <= width,
        offset + width <= stride,
    ensures
        id * stride + offset + width <= stride * count,
{
    assert(id * stride + stride <= stride * count) by (nonlinear_arith)
        requires
            0 <= id < count,
            0 <= stride,
    ;
}

/// One level-of-detail step for a client.
///
/// `node_indices` are the leaves that the spatial index found visible. Every visible
/// leaf gives the next batch of at most `lod_batch` particles of its run (an empty one
/// once the run is exhausted), and every visible leaf moves up one level in the
/// client's progress, a leaf seen for the first time entering at level 0. The values of
/// the emitted particles are gathered from the entry's tables. Fails, leaving the
/// progress as it was, when a visible leaf or an emitted particle lies outside the
/// entry's arrays.
pub fn calc_lod<T: Copy, I>(
    entry: &CacheEntry<T, I>,
    node_indices: &Vec<i64>,
    lod_batch: i64,
    client_level_of_detail: &mut HashMap<i64, i64>,
    snapshot_id: usize,
) -> (r: Result<LodResult<T>, LodError>)
    requires
        lod_batch >= 0,
        node_indices@.len() <= i64::MAX,
        progress_valid(old(client_level_of_detail)@, node_indices@.len() as int),
    ensures
        r is Ok <==> {
            &&& leaves_in_range(node_indices@, entry.num_leaves())
            &&& particles_in_range(
                emitted(*entry, node_indices@, old(client_level_of_detail)@, lod_batch as int),
                entry.particle_count(),
            )
        },
        r is Err ==> final(client_level_of_detail)@ == old(client_level_of_detail)@,
        r matches Ok(res) ==> {
            &&& is_lod_result(
                *entry,
                node_indices@,
                old(client_level_of_detail)@,
                lod_batch as int,
                snapshot_id,
                res,
            )
            &&& final(client_level_of_detail)@ == advanced(
                old(client_level_of_detail)@,
                node_indices@,
            )
        },
{
    let ghost start = client_level_of_detail@;
    let ids = match select_particles(entry, node_indices, lod_batch, client_level_of_detail) {
        Ok(ids) => ids,
        Err(e) => {
            return Err(e);
        },
    };
    let count = entry.particle_total();
    if !particles_valid(&ids, count) {
        return Err(LodError::IndexOutOfRange);
    }
    advance_progress(client_level_of_detail, node_indices);
    proof {
        assert(SPLINE_ROW == 12 && SPLINE_COMPONENTS == 3 && COORDINATE_DIMS == 3
            && DENSITY_ESTIMATES == 2);
        assert forall|k: int| 0 <= k < ids@.len() implies {
            &&& ids@[k] * 12 + 12 <= entry.splines().len()
            &&& ids@[k] * 3 + 3 <= entry.coordinates().len()
            &&& ids@[k] * 1 + count + 1 <= entry.densities().len()
            &&& ids@[k] * 1 + 1 <= entry.extra_scalar().len()
        } by {
            lemma_row_within(ids@[k] as int, count as int, 12, 9, 3);
            lemma_row_within(ids@[k] as int, count as int, 3, 0, 3);
        }
    }
    let splines = entry.spline_table();
    let densities = entry.density_table();
    let mut second_densities = gather_rows(densities, &ids, 1, count, 1);
    let mut relevant_densities_flat = gather_rows(densities, &ids, 1, 0, 1);
    relevant_densities_flat.append(&mut second_densities);
    let result = LodResult {
        splines_a: gather_rows(splines, &ids, SPLINE_ROW, 0, SPLINE_COMPONENTS),
        splines_b: gather_rows(splines, &ids, SPLINE_ROW, SPLINE_COMPONENTS, SPLINE_COMPONENTS),
        splines_c: gather_rows(splines, &ids, SPLINE_ROW, 2 * SPLINE_COMPONENTS, SPLINE_COMPONENTS),
        splines_d: gather_rows(splines, &ids, SPLINE_ROW, 3 * SPLINE_COMPONENTS, SPLINE_COMPONENTS),
        relevant_densities_flat,
        relevant_coordinates: gather_rows(
            entry.coordinate_table(),
            &ids,
            COORDINATE_DIMS,
            0,
            COORDINATE_DIMS,
        ),
        relevant_voronoi_diameter_extended: gather_rows(entry.extra_scalar_table(), &ids, 1, 0, 1),
        client_level_of_detail: client_level_of_detail.clone(),
        n_particles: ids.len(),
        snapshot_id,
        node_indices: tracked_leaves(client_level_of_detail),
    };
    Ok(result)
}

/// Visiting distinct leaves raises each of them by exactly one level (a leaf seen
/// for the first time goes from 0 to 1) and leaves every other leaf as it was.
pub proof fn lemma_advanced_levels(progress: Map<i64, i64>, leaves: Seq<i64>)
    requires
        leaves.no_duplicates(),
        progress_valid(progress, leaves.len() as int),
    ensures
        forall|leaf: i64|
            #[trigger] advanced(progress, leaves).contains_key(leaf) <==> (progress.contains_key(
                leaf,
            ) || leaves.contains(leaf)),
        forall|leaf: i64|
            #[trigger] level(advanced(progress, leaves), leaf) == level(progress, leaf) + if leaves.contains(
                leaf,
            ) {
                1int
            } else {
                0int
            },
    decreases leaves.len(),
{
    if leaves.len() > 0 {
        let init = leaves.drop_last();
        let last = leaves.last();
        assert(init.no_duplicates()) by {
            assert forall|i: int, j: int| 0 <= i < j < init.len() implies init[i] != init[j] by {
                assert(init[i] == leaves[i] && init[j] == leaves[j]);
            }
        }
        assert(progress_valid(progress, init.len() as int));
        lemma_advanced_levels(progress, init);
        assert(!init.contains(last)) by {
            if init.contains(last) {
                let i = choose|i: int| 0 <= i < init.len() && init[i] == last;
                assert(leaves[i] == leaves[leaves.len() - 1]);
            }
        }
        assert forall|leaf: i64| #[trigger] leaves.contains(leaf) <==> (init.contains(leaf) || leaf
            == last) by {
            if leaves.contains(leaf) {
                let i = choose|i: int| 0 <= i < leaves.len() && leaves[i] == leaf;
                if i < leaves.len() - 1 {
                    assert(init[i] == leaf);
                }
            }
            if init.contains(leaf) {
                let i = choose|i: int| 0 <= i < init.len() && init[i] == leaf;
                assert(leaves[i] == leaf);
            }
            if leaf == last {
                assert(leaves[leaves.len() - 1] == leaf);
            }
        }
        let before = advanced(progress, init);
        let after = advanced(progress, leaves);
        assert(level(before, last) == level(progress, last));
        assert(0 <= level(progress, last) <= i64::MAX - 1);
        assert(after == before.insert(last, (level(before, last) + 1) as i64));
        assert forall|leaf: i64| #[trigger] after.contains_key(leaf) <==> (progress.contains_key(leaf)
            || leaves.contains(leaf)) by {
            assert(before.contains_key(leaf) <==> (progress.contains_key(leaf) || init.contains(
                leaf,
            )));
        }
        assert forall|leaf: i64| #[trigger]
            level(after, leaf) == level(progress, leaf) + if leaves.contains(leaf) {
                1int
            } else {
                0int
            } by {
            assert(level(before, leaf) == level(progress, leaf) + if init.contains(leaf) {
                1int
            } else {
                0int
            });
        }
    }
}

/// Within one step, each visible leaf contributes at most `size` particles.
pub proof fn lemma_batch_within_size(
    order: Seq<i64>,
    offsets: Seq<i64>,
    progress: Map<i64, i64>,
    leaf: i64,
    size: int,
)
    requires
        offsets_ordered(offsets),
        offsets_within(offsets, order.len() as int),
        0 <= leaf < offsets.len(),
        progress_valid(progress, 0),
        0 <= size,
    ensures
        current_batch(order, offsets, progress, size)(leaf).len() <= size,
{
    let start = run_start(offsets, leaf as int);
    let stop = run_stop(offsets, order.len() as int, leaf as int);
    let b = level(progress, leaf);
    assert(start <= stop);
    lemma_batch_bounds_ordered(start, stop, b, size);
    assert(start + (b + 1) * size == start + b * size + size) by (nonlinear_arith);
}

/// A step emits at most `size` particles per visible leaf.
pub proof fn lemma_step_within_size(
    order: Seq<i64>,
    offsets: Seq<i64>,
    leaves: Seq<i64>,
    progress: Map<i64, i64>,
    size: int,
)
    requires
        offsets_ordered(offsets),
        offsets_within(offsets, order.len() as int),
        leaves_in_range(leaves, offsets.len() as int),
        progress_valid(progress, 0),
        0 <= size,
    ensures
        selected_particles(order, offsets, leaves, progress, size).len() <= leaves.len() * size,
    decreases leaves.len(),
{
    if leaves.len() > 0 {
        let init = leaves.drop_last();
        let last = leaves.last();
        assert(leaves_in_range(init, offsets.len() as int)) by {
            assert forall|k: int| 0 <= k < init.len() implies 0 <= #[trigger] init[k] < offsets.len() by {
                assert(init[k] == leaves[k]);
            }
        }
        lemma_step_within_size(order, offsets, init, progress, size);
        assert(leaves =~= init.push(last));
        init.lemma_flat_map_push(current_batch(order, offsets, progress, size), last);
        assert(0 <= leaves[leaves.len() - 1] < offsets.len());
        lemma_batch_within_size(order, offsets, progress, last, size);
        assert(init.len() * size + size == leaves.len() * size) by (nonlinear_arith)
            requires
                init.len() + 1 == leaves.len(),
        ;
    } else {
        assert(selected_particles(order, offsets, leaves, progress, size) =~= Seq::<i64>::empty());
    }
}

/// A leaf whose run is exhausted at its current level emits nothing, yet a visit still
/// raises its level by one, and it stays exhausted at the new level: it emits nothing
/// on every later step.
pub proof fn lemma_exhausted_leaf_keeps_counting(
    order: Seq<i64>,
    offsets: Seq<i64>,
    progress: Map<i64, i64>,
    leaves: Seq<i64>,
    leaf: i64,
    size: int,
)
    requires
        offsets_ordered(offsets),
        offsets_within(offsets, order.len() as int),
        0 <= leaf < offsets.len(),
        0 <= size,
        leaves.no_duplicates(),
        leaves.contains(leaf),
        progress_valid(progress, leaves.len() as int),
        level(progress, leaf) * size >= run_stop(offsets, order.len() as int, leaf as int)
            - run_start(offsets, leaf as int),
    ensures
        current_batch(order, offsets, progress, size)(leaf) == Seq::<i64>::empty(),
        level(advanced(progress, leaves), leaf) == level(progress, leaf) + 1,
        level(advanced(progress, leaves), leaf) * size >= run_stop(
            offsets,
            order.len() as int,
            leaf as int,
        ) - run_start(offsets, leaf as int),
{
    let start = run_start(offsets, leaf as int);
    let stop = run_stop(offsets, order.len() as int, leaf as int);
    let b = level(progress, leaf);
    assert(b >= 0);
    assert(start <= stop);
    lemma_batch_bounds_ordered(start, stop, b, size);
    assert(b * size <= (b + 1) * size) by (nonlinear_arith)
        requires
            b >= 0,
            size >= 0,
    ;
    assert(current_batch(order, offsets, progress, size)(leaf) =~= Seq::<i64>::empty());
    lemma_advanced_levels(progress, leaves);
}

} // verus!
