use vstd::prelude::*;

use vstd::string::{StrSliceExecFns, StringExecFns};

use crate::data_cache::CacheRequest;

verus! {

/// The decimal digit character for `d` in `0..10`.
pub open spec fn digit_char(d: int) -> char {
    if d == 0 {
        '0'
    } else if d == 1 {
        '1'
    } else if d == 2 {
        '2'
    } else if d == 3 {
        '3'
    } else if d == 4 {
        '4'
    } else if d == 5 {
        '5'
    } else if d == 6 {
        '6'
    } else if d == 7 {
        '7'
    } else if d == 8 {
        '8'
    } else {
        '9'
    }
}

/// `n` written in decimal, without leading zeros.
pub open spec fn decimal(n: nat) -> Seq<char>
    decreases n,
{
    if n < 10 {
        seq![digit_char(n as int)]
    } else {
        decimal(n / 10).push(digit_char((n % 10) as int))
    }
}

/// `n` written in decimal, with leading zeros up to `width` characters.
pub open spec fn zero_padded(n: nat, width: nat) -> Seq<char> {
    let digits = decimal(n);
    if digits.len() < width {
        Seq::new((width - digits.len()) as nat, |_i: int| '0') + digits
    } else {
        digits
    }
}

/// Whether `c` is one of `0` to `9`.
pub open spec fn is_digit(c: char) -> bool {
    '0' <= c <= '9'
}

/// The value of the decimal digits `s`.
pub open spec fn digits_value(s: Seq<char>) -> nat
    decreases s.len(),
{
    if s.len() == 0 {
        0
    } else {
        digits_value(s.drop_last()) * 10 + (s.last() as nat - '0' as nat) as nat
    }
}

/// Name of the directory holding snapshot `snapshot_id`.
pub open spec fn snapshot_dir_name(snapshot_id: nat) -> Seq<char> {
    "snapdir_"@ + zero_padded(snapshot_id, 3)
}

/// Directory, ending in `/`, that holds the files of `simulation`'s snapshot
/// `snapshot_id` under `basedir`.
pub open spec fn snapshot_dir(basedir: Seq<char>, simulation: Seq<char>, snapshot_id: nat) -> Seq<
    char,
> {
    basedir + "/"@ + simulation + "/"@ + snapshot_dir_name(snapshot_id) + "/"@
}

/// The one-character string of digit `d`.
fn digit_str(d: usize) -> (r: &'static str)
    requires
        d < 10,
    ensures
        r@ == seq![digit_char(d as int)],
{
    proof {
        reveal_strlit("0");
        reveal_strlit("1");
        reveal_strlit("2");
        reveal_strlit("3");
        reveal_strlit("4");
        reveal_strlit("5");
        reveal_strlit("6");
        reveal_strlit("7");
        reveal_strlit("8");
        reveal_strlit("9");
    }
    let r = if d == 0 {
        "0"
    } else if d == 1 {
        "1"
    } else if d == 2 {
        "2"
    } else if d == 3 {
        "3"
    } else if d == 4 {
        "4"
    } else if d == 5 {
        "5"
    } else if d == 6 {
        "6"
    } else if d == 7 {
        "7"
    } else if d == 8 {
        "8"
    } else {
        "9"
    };
    assert(r@ =~= seq![digit_char(d as int)]);
    r
}

/// Appends `n` in decimal to `out`.
fn push_decimal(out: &mut String, n: usize)
    ensures
        final(out)@ == old(out)@ + decimal(n as nat),
    decreases n,
{
    if n >= 10 {
        push_decimal(out, n / 10);
    }
    out.append(digit_str(n % 10));
    assert(final(out)@ =~= old(out)@ + decimal(n as nat));
}

/// Number of decimal digits of `n`.
fn decimal_len(n: usize) -> (r: usize)
    ensures
        r == decimal(n as nat).len(),
    decreases n,
{
    if n < 10 {
        1
    } else {
        let r = decimal_len(n / 10);
        proof {
            lemma_decimal_len_bound(n as nat / 10);
        }
        r + 1
    }
}

/// `n` has at most `n + 1` decimal digits.
proof fn lemma_decimal_len_bound(n: nat)
    ensures
        decimal(n).len() <= n + 1,
    decreases n,
{
    if n >= 10 {
        lemma_decimal_len_bound(n / 10);
    }
}

/// `n` in decimal, with leading zeros up to `width` characters.
pub fn format_zero_padded(n: usize, width: usize) -> (r: String)
    ensures
        r@ == zero_padded(n as nat, width as nat),
{
    let mut out = String::new();
    let digits = decimal_len(n);
    let mut pad: usize = 0;
    while pad + digits < width
        invariant
            out@ == Seq::new(pad as nat, |_i: int| '0'),
            digits == decimal(n as nat).len(),
            pad + digits <= width || pad == 0,
        decreases width - pad,
    {
        proof {
            reveal_strlit("0");
        }
        out.append("0");
        assert(out@ =~= Seq::new((pad + 1) as nat, |_i: int| '0'));
        pad = pad + 1;
    }
    push_decimal(&mut out, n);
    assert(out@ =~= zero_padded(n as nat, width as nat));
    out
}

/// File of the particle ids grouped by leaf.
pub const PARTICLE_ORDER_FILE: &'static str = "particle_list_of_leafs_Density.npy";

/// File of the offset at which each leaf's run starts.
pub const LEAF_OFFSETS_FILE: &'static str = "particle_list_of_leafs_Density_scan.npy";

/// File of the spline coefficients.
pub const SPLINES_FILE: &'static str = "splines.npy";

/// File of the two density estimates.
pub const DENSITIES_FILE: &'static str = "Density.npy";

/// File of the density quantile breakpoints.
pub const QUANTILES_FILE: &'static str = "densities_quantiles.npy";

/// File of the particle positions.
pub const COORDINATES_FILE: &'static str = "Coordinates.npy";

/// File of the auxiliary per-particle scalar.
pub const EXTRA_SCALAR_FILE: &'static str = "voronoi_diameter_extended.npy";

/// File of the spatial index over the leaves.
pub const SPATIAL_INDEX_FILE: &'static str = "o3dOctree.json";

/// The files from which one snapshot's cache entry is loaded.
pub struct EntryFiles {
    pub particle_list_of_leafs: String,
    pub particle_list_of_leafs_scan: String,
    pub splines: String,
    pub densities: String,
    pub quantiles: String,
    pub coordinates: String,
    pub voronoi_diameter_extended: String,
    pub octree: String,
}

/// The directory, ending in `/`, of `simulation`'s snapshot `snapshot_id` under `basedir`.
pub fn snapshot_dir_path(basedir: &String, simulation: &String, snapshot_id: usize) -> (r: String)
    ensures
        r@ == snapshot_dir(basedir@, simulation@, snapshot_id as nat),
{
    let mut out = basedir.clone();
    out.append("/");
    out.append(simulation.as_str());
    out.append("/");
    out.append("snapdir_");
    let number = format_zero_padded(snapshot_id, 3);
    out.append(number.as_str());
    out.append("/");
    assert(out@ =~= snapshot_dir(basedir@, simulation@, snapshot_id as nat));
    out
}

/// `dir` followed by `name`.
fn joined(dir: &String, name: &str) -> (r: String)
    ensures
        r@ == dir@ + name@,
{
    dir.clone().concat(name)
}

/// The files of `request`'s snapshot under `basedir`.
pub fn entry_files(basedir: &String, request: &CacheRequest) -> (r: EntryFiles)
    ensures
        ({
            let dir = snapshot_dir(basedir@, request.simulation@, request.snapshot_id as nat);
            &&& r.particle_list_of_leafs@ == dir + PARTICLE_ORDER_FILE@
            &&& r.particle_list_of_leafs_scan@ == dir + LEAF_OFFSETS_FILE@
            &&& r.splines@ == dir + SPLINES_FILE@
            &&& r.densities@ == dir + DENSITIES_FILE@
            &&& r.quantiles@ == dir + QUANTILES_FILE@
            &&& r.coordinates@ == dir + COORDINATES_FILE@
            &&& r.voronoi_diameter_extended@ == dir + EXTRA_SCALAR_FILE@
            &&& r.octree@ == dir + SPATIAL_INDEX_FILE@
        }),
{
    let dir = snapshot_dir_path(basedir, &request.simulation, request.snapshot_id);
    EntryFiles {
        particle_list_of_leafs: joined(&dir, PARTICLE_ORDER_FILE),
        particle_list_of_leafs_scan: joined(&dir, LEAF_OFFSETS_FILE),
        splines: joined(&dir, SPLINES_FILE),
        densities: joined(&dir, DENSITIES_FILE),
        quantiles: joined(&dir, QUANTILES_FILE),
        coordinates: joined(&dir, COORDINATES_FILE),
        voronoi_diameter_extended: joined(&dir, EXTRA_SCALAR_FILE),
        octree: joined(&dir, SPATIAL_INDEX_FILE),
    }
}

/// Path of the group catalogue of `simulation`'s snapshot `snapshot_id`, which holds
/// the box size.
pub open spec fn group_catalog(basedir: Seq<char>, simulation: Seq<char>, snapshot_id: nat) -> Seq<
    char,
> {
    basedir + "/"@ + simulation + "/"@ + "groups_"@ + zero_padded(snapshot_id, 3) + "/"@
        + "fof_subhalo_tab_"@ + zero_padded(snapshot_id, 3) + ".0.hdf5"@
}

/// The path of the group catalogue of `simulation`'s snapshot `snapshot_id`.
pub fn group_catalog_path(basedir: &String, simulation: &String, snapshot_id: usize) -> (r: String)
    ensures
        r@ == group_catalog(basedir@, simulation@, snapshot_id as nat),
{
    let number = format_zero_padded(snapshot_id, 3);
    let mut out = basedir.clone();
    out.append("/");
    out.append(simulation.as_str());
    out.append("/");
    out.append("groups_");
    out.append(number.as_str());
    out.append("/");
    out.append("fof_subhalo_tab_");
    out.append(number.as_str());
    out.append(".0.hdf5");
    assert(out@ =~= group_catalog(basedir@, simulation@, snapshot_id as nat));
    out
}

/// A value of at least `digits_value(s.subrange(0, k))`: appending digits never
/// lowers the value.
proof fn lemma_prefix_value_le(s: Seq<char>, k: int)
    requires
        0 <= k <= s.len(),
        forall|i: int| 0 <= i < s.len() ==> is_digit(#[trigger] s[i]),
    ensures
        digits_value(s.subrange(0, k)) <= digits_value(s),
    decreases s.len() - k,
{
    if k < s.len() {
        lemma_prefix_value_le(s, k + 1);
        let next = s.subrange(0, k + 1);
        assert(next.drop_last() =~= s.subrange(0, k));
        assert(is_digit(next.last()));
    } else {
        assert(s.subrange(0, k) =~= s);
    }
}

/// The value of the decimal digits `s`, when `s` is a non-empty run of digits whose
/// value fits in `usize`.
pub fn parse_decimal(s: &str) -> (r: Option<usize>)
    ensures
        r is Some <==> {
            &&& s@.len() > 0
            &&& forall|i: int| 0 <= i < s@.len() ==> is_digit(#[trigger] s@[i])
            &&& digits_value(s@) <= usize::MAX
        },
        r matches Some(v) ==> v == digits_value(s@),
{
    let n = s.unicode_len();
    if n == 0 {
        return None;
    }
    let mut value: u128 = 0;
    let mut k: usize = 0;
    while k < n
        invariant
            n == s@.len(),
            k <= n,
            forall|i: int| 0 <= i < k ==> is_digit(#[trigger] s@[i]),
            value == digits_value(s@.subrange(0, k as int)),
            value <= usize::MAX,
        decreases n - k,
    {
        let c = s.get_char(k);
        if c < '0' || c > '9' {
            return None;
        }
        let ghost next = s@.subrange(0, k as int + 1);
        assert(next.drop_last() =~= s@.subrange(0, k as int));
        value = value * 10 + (c as u32 - '0' as u32) as u128;
        if value > usize::MAX as u128 {
            proof {
                assert forall|i: int| 0 <= i < k + 1 implies is_digit(#[trigger] next[i]) by {
                    assert(next[i] == s@[i]);
                }
                if forall|i: int| 0 <= i < s@.len() ==> is_digit(#[trigger] s@[i]) {
                    lemma_prefix_value_le(s@, k as int + 1);
                }
            }
            return None;
        }
        k = k + 1;
    }
    assert(s@.subrange(0, n as int) =~= s@);
    Some(value as usize)
}

/// The snapshot id named by a snapshot directory's name, `snapdir_` followed by the
/// id's decimal digits.
pub fn snapshot_id_of_dir(name: &str) -> (r: Option<usize>)
    ensures
        r is Some <==> {
            let digits = name@.subrange(8, name@.len() as int);
            &&& name@.len() > 8
            &&& name@.subrange(0, 8) == "snapdir_"@
            &&& forall|i: int| 0 <= i < digits.len() ==> is_digit(#[trigger] digits[i])
            &&& digits_value(digits) <= usize::MAX
        },
        r matches Some(v) ==> v == digits_value(name@.subrange(8, name@.len() as int)),
{
    proof {
        reveal_strlit("snapdir_");
    }
    let prefix = "snapdir_";
    let n = name.unicode_len();
    if n <= 8 {
        return None;
    }
    let mut k: usize = 0;
    while k < 8
        invariant
            n == name@.len(),
            n > 8,
            prefix@ == "snapdir_"@,
            prefix@.len() == 8,
            k <= 8,
            forall|i: int| 0 <= i < k ==> name@[i] == prefix@[i],
        decreases 8 - k,
    {
        if name.get_char(k) != prefix.get_char(k) {
            assert(name@.subrange(0, 8)[k as int] != "snapdir_"@[k as int]);
            return None;
        }
        k = k + 1;
    }
    assert(name@.subrange(0, 8) =~= "snapdir_"@);
    parse_decimal(name.substring_char(8, n))
}

} // verus!
