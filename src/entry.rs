use vstd::prelude::*;

use crate::arrays::IdArray;

verus! {

/// Coefficient groups (a, b, c, d) of each particle's interpolation spline.
pub const SPLINE_GROUPS: usize = 4;

/// Components of each spline coefficient group.
pub const SPLINE_COMPONENTS: usize = 3;

/// Values per particle in the flattened spline table.
pub const SPLINE_ROW: usize = SPLINE_GROUPS * SPLINE_COMPONENTS;

/// Density estimates per particle.
pub const DENSITY_ESTIMATES: usize = 2;

/// Components of a particle position.
pub const COORDINATE_DIMS: usize = 3;

/// Why a snapshot could not be turned into a cache entry.
#[derive(Debug, PartialEq, Eq)]
pub enum LoadError {
    /// A file could not be opened or parsed; the message names it.
    Io(String),
    /// A leaf offset is smaller than the one before it.
    UnorderedLeafOffsets,
    /// A leaf offset lies outside the particle order.
    LeafOffsetOutOfRange,
    /// The per-particle tables do not describe the same number of particles.
    TableShapeMismatch,
}

/// Leaf offsets never decrease.
pub open spec fn offsets_ordered(offsets: Seq<i64>) -> bool {
    forall|i: int| 0 <= i < offsets.len() - 1 ==> #[trigger] offsets[i] <= offsets[i + 1]
}

/// Every leaf offset is a position in `[0, n]` of a particle order of length `n`.
pub open spec fn offsets_within(offsets: Seq<i64>, n: int) -> bool {
    forall|i: int| 0 <= i < offsets.len() ==> 0 <= #[trigger] offsets[i] <= n
}

/// First position of leaf `leaf`'s run in the particle order.
pub open spec fn run_start(offsets: Seq<i64>, leaf: int) -> int {
    offsets[leaf] as int
}

/// End (exclusive) of leaf `leaf`'s run: the next leaf's offset, or `n` for the last leaf.
pub open spec fn run_stop(offsets: Seq<i64>, n: int, leaf: int) -> int {
    if leaf + 1 < offsets.len() {
        offsets[leaf + 1] as int
    } else {
        n
    }
}

/// The flattened per-particle tables all describe `count` particles.
pub open spec fn tables_consistent<T>(
    splines: Seq<T>,
    densities: Seq<T>,
    coordinates: Seq<T>,
    count: int,
) -> bool {
    &&& splines.len() == SPLINE_ROW * count
    &&& densities.len() == DENSITY_ESTIMATES * count
    &&& coordinates.len() == COORDINATE_DIMS * count
}

/// One loaded snapshot: the particle order grouped by leaf, where each leaf's run
/// starts, the per-particle tables, the density quantiles and a spatial index over
/// the leaves.
///
/// The tables are flattened row by row and indexed by raw particle id:
/// `splines` holds `SPLINE_ROW` values per particle (group-major), `densities` holds
/// all first estimates followed by all second estimates, `coordinates` holds three
/// values per particle and `extra_scalar` one.
pub struct CacheEntry<T, I> {
    particle_order: IdArray,
    leaf_offsets: IdArray,
    splines: Vec<T>,
    densities: Vec<T>,
    coordinates: Vec<T>,
    extra_scalar: Vec<T>,
    quantiles: Vec<T>,
    spatial_index: I,
}

impl<T, I> CacheEntry<T, I> {
    pub closed spec fn particle_order(&self) -> Seq<i64> {
        self.particle_order@
    }

    pub closed spec fn leaf_offsets(&self) -> Seq<i64> {
        self.leaf_offsets@
    }

    pub closed spec fn splines(&self) -> Seq<T> {
        self.splines@
    }

    pub closed spec fn densities(&self) -> Seq<T> {
        self.densities@
    }

    pub closed spec fn coordinates(&self) -> Seq<T> {
        self.coordinates@
    }

    pub closed spec fn extra_scalar(&self) -> Seq<T> {
        self.extra_scalar@
    }

    pub closed spec fn quantile_table(&self) -> Seq<T> {
        self.quantiles@
    }

    pub closed spec fn index(&self) -> I {
        self.spatial_index
    }

    /// Number of particles that the per-particle tables describe.
    pub open spec fn particle_count(&self) -> int {
        self.extra_scalar().len() as int
    }

    /// Number of leaves; leaf ids are `0..num_leaves()`.
    pub open spec fn num_leaves(&self) -> int {
        self.leaf_offsets().len() as int
    }

    pub open spec fn well_formed(&self) -> bool {
        &&& offsets_ordered(self.leaf_offsets())
        &&& offsets_within(self.leaf_offsets(), self.particle_order().len() as int)
        &&& tables_consistent(
            self.splines(),
            self.densities(),
            self.coordinates(),
            self.particle_count(),
        )
    }

    #[verifier::type_invariant]
    closed spec fn inv(&self) -> bool {
        self.well_formed()
    }

    /// Builds an entry from loaded arrays, checking that the leaf offsets describe runs
    /// of the particle order and that the tables agree on the number of particles.
    pub fn new(
        particle_order: Vec<i64>,
        leaf_offsets: Vec<i64>,
        splines: Vec<T>,
        densities: Vec<T>,
        coordinates: Vec<T>,
        extra_scalar: Vec<T>,
        quantiles: Vec<T>,
        spatial_index: I,
    ) -> (r: Result<Self, LoadError>)
        requires
            particle_order@.len() <= isize::MAX,
            leaf_offsets@.len() <= isize::MAX,
        ensures
            r is Ok <==> {
                &&& offsets_ordered(leaf_offsets@)
                &&& offsets_within(leaf_offsets@, particle_order@.len() as int)
                &&& tables_consistent(
                    splines@,
                    densities@,
                    coordinates@,
                    extra_scalar@.len() as int,
                )
            },
            match r {
                Ok(e) => {
                    &&& e.particle_order() == particle_order@
                    &&& e.leaf_offsets() == leaf_offsets@
                    &&& e.splines() == splines@
                    &&& e.densities() == densities@
                    &&& e.coordinates() == coordinates@
                    &&& e.extra_scalar() == extra_scalar@
                    &&& e.quantile_table() == quantiles@
                    &&& e.index() == spatial_index
                },
                Err(LoadError::UnorderedLeafOffsets) => !offsets_ordered(leaf_offsets@),
                Err(LoadError::LeafOffsetOutOfRange) => {
                    &&& offsets_ordered(leaf_offsets@)
                    &&& !offsets_within(leaf_offsets@, particle_order@.len() as int)
                },
                Err(LoadError::TableShapeMismatch) => {
                    &&& offsets_ordered(leaf_offsets@)
                    &&& offsets_within(leaf_offsets@, particle_order@.len() as int)
                },
                Err(LoadError::Io(_)) => false,
            },
    {
        let n = particle_order.len();
        let num_leaves = leaf_offsets.len();
        let mut i: usize = 1;
        while i < num_leaves
            invariant
                num_leaves == leaf_offsets@.len(),
                1 <= i,
                i <= num_leaves || num_leaves == 0,
                forall|j: int| 0 <= j < i - 1 ==> #[trigger] leaf_offsets@[j] <= leaf_offsets@[j + 1],
            decreases num_leaves - i,
        {
            if leaf_offsets[i - 1] > leaf_offsets[i] {
                return Err(LoadError::UnorderedLeafOffsets);
            }
            i = i + 1;
        }
        let mut i: usize = 0;
        while i < num_leaves
            invariant
                num_leaves == leaf_offsets@.len(),
                n == particle_order@.len(),
                offsets_ordered(leaf_offsets@),
                i <= num_leaves,
                forall|j: int| 0 <= j < i ==> 0 <= #[trigger] leaf_offsets@[j] <= n,
            decreases num_leaves - i,
        {
            let offset = leaf_offsets[i];
            if offset < 0 || offset as u128 > n as u128 {
                return Err(LoadError::LeafOffsetOutOfRange);
            }
            i = i + 1;
        }
        let count = extra_scalar.len() as u128;
        assert(SPLINE_ROW as u128 * count <= 12 * u64::MAX && DENSITY_ESTIMATES as u128 * count
            <= 2 * u64::MAX && COORDINATE_DIMS as u128 * count <= 3 * u64::MAX) by (nonlinear_arith)
            requires
                SPLINE_ROW == 12,
                DENSITY_ESTIMATES == 2,
                COORDINATE_DIMS == 3,
                count <= u64::MAX,
        ;
        if splines.len() as u128 != SPLINE_ROW as u128 * count
            || densities.len() as u128 != DENSITY_ESTIMATES as u128 * count
            || coordinates.len() as u128 != COORDINATE_DIMS as u128 * count
        {
            return Err(LoadError::TableShapeMismatch);
        }
        let entry = CacheEntry {
            particle_order: IdArray::from_vec(particle_order),
            leaf_offsets: IdArray::from_vec(leaf_offsets),
            splines,
            densities,
            coordinates,
            extra_scalar,
            quantiles,
            spatial_index,
        };
        Ok(entry)
    }

    /// Number of leaves.
    pub fn leaf_count(&self) -> (r: usize)
        ensures
            r == self.num_leaves(),
    {
        self.leaf_offsets.len()
    }

    /// Bounds `[start, stop)` of leaf `leaf`'s run in the particle order.
    pub fn leaf_run(&self, leaf: usize) -> (r: (usize, usize))
        requires
            leaf < self.num_leaves(),
        ensures
            r.0 == run_start(self.leaf_offsets(), leaf as int),
            r.1 == run_stop(self.leaf_offsets(), self.particle_order().len() as int, leaf as int),
            r.0 <= r.1 <= self.particle_order().len(),
    {
        proof {
            use_type_invariant(self);
        }
        let n = self.particle_order.len();
        let num_leaves = self.leaf_offsets.len();
        let start = self.leaf_offsets.get(leaf) as usize;
        let stop = if leaf + 1 < num_leaves {
            self.leaf_offsets.get(leaf + 1) as usize
        } else {
            n
        };
        (start, stop)
    }

    /// The particle ids at positions `lo..hi` of the particle order.
    pub fn particles_in(&self, lo: usize, hi: usize) -> (r: Vec<i64>)
        requires
            lo <= hi <= self.particle_order().len(),
        ensures
            r@ == self.particle_order().subrange(lo as int, hi as int),
    {
        self.particle_order.run(lo, hi)
    }

    /// Number of particles that the per-particle tables describe.
    pub fn particle_total(&self) -> (r: usize)
        ensures
            r == self.particle_count(),
            tables_consistent(self.splines(), self.densities(), self.coordinates(), r as int),
    {
        proof {
            use_type_invariant(self);
        }
        self.extra_scalar.len()
    }

    /// The flattened spline table.
    pub fn spline_table(&self) -> (r: &Vec<T>)
        ensures
            r@ == self.splines(),
    {
        &self.splines
    }

    /// The flattened density table: all first estimates, then all second estimates.
    pub fn density_table(&self) -> (r: &Vec<T>)
        ensures
            r@ == self.densities(),
    {
        &self.densities
    }

    /// The flattened coordinate table.
    pub fn coordinate_table(&self) -> (r: &Vec<T>)
        ensures
            r@ == self.coordinates(),
    {
        &self.coordinates
    }

    /// The auxiliary per-particle scalar.
    pub fn extra_scalar_table(&self) -> (r: &Vec<T>)
        ensures
            r@ == self.extra_scalar(),
    {
        &self.extra_scalar
    }

    /// The density quantile breakpoints of this snapshot.
    pub fn quantiles(&self) -> (r: &Vec<T>)
        ensures
            r@ == self.quantile_table(),
    {
        &self.quantiles
    }

    /// The spatial index over this snapshot's leaves.
    pub fn spatial_index(&self) -> (r: &I)
        ensures
            *r == self.index(),
    {
        &self.spatial_index
    }
}

} // verus!
