//! The block model and its visualization pipeline: resolving the bound
//! geometry columns and a chosen attribute column, computing the attribute
//! domain, turning each fully-present row into a colored cuboid, and
//! emitting fixed-capacity instance batches with their bounding boxes.

use vstd::prelude::*;

use crate::block::{scalar_in_range, BlockCoordinates};
use crate::gradient::{color_at_spec, stops_wf, Gradient, GradientStop, Rgb};
use crate::render::{
    batches_match, pack_rgba, pack_rgba_spec, partition_batches, BoundingBox, CuboidInstance,
    InstanceBatch,
};
use crate::table::{ColumnFault, Table};

verus! {

/// Why one visualization request stopped. Row-level incompleteness is not
/// an error: incomplete rows are silently skipped.
#[derive(Debug, Clone, PartialEq)]
pub enum ModelError {
    /// A bound geometry name or the chosen attribute names no column.
    MissingColumn(String),
    /// The bound column exists but cannot be cast to numbers.
    TypeMismatch(String),
    /// The attribute column has no present value, so no color mapping
    /// exists.
    EmptyDomain,
}

impl ModelError {
    /// The error reports the named column as missing.
    pub open spec fn is_missing(&self, name: Seq<char>) -> bool {
        self matches ModelError::MissingColumn(s) && s@ == name
    }

    /// The error reports the named column as non-numeric.
    pub open spec fn is_mismatch(&self, name: Seq<char>) -> bool {
        self matches ModelError::TypeMismatch(s) && s@ == name
    }

    /// The error matches a resolution failure: a missing or a non-numeric
    /// column, with the failing name.
    pub open spec fn matches_failure(&self, f: (bool, Seq<char>)) -> bool {
        if f.0 {
            self.is_missing(f.1)
        } else {
            self.is_mismatch(f.1)
        }
    }
}

/// Some cell of the column is present.
pub open spec fn has_present(vals: Seq<Option<i64>>) -> bool {
    exists|i: int| 0 <= i < vals.len() && vals[i] is Some
}

/// The smallest present value of the column.
pub open spec fn min_present(vals: Seq<Option<i64>>) -> int
    decreases vals.len(),
{
    if vals.len() == 0 {
        0
    } else {
        let prefix = vals.drop_last();
        match vals.last() {
            Some(v) => if !has_present(prefix) || v as int <= min_present(prefix) {
                v as int
            } else {
                min_present(prefix)
            },
            None => min_present(prefix),
        }
    }
}

/// The largest present value of the column.
pub open spec fn max_present(vals: Seq<Option<i64>>) -> int
    decreases vals.len(),
{
    if vals.len() == 0 {
        0
    } else {
        let prefix = vals.drop_last();
        match vals.last() {
            Some(v) => if !has_present(prefix) || v as int >= max_present(prefix) {
                v as int
            } else {
                max_present(prefix)
            },
            None => max_present(prefix),
        }
    }
}

/// Attribute domain law: the minimum and maximum over the present values
/// bound every present value and are themselves attained by present
/// values.
pub proof fn lemma_domain_bounds(vals: Seq<Option<i64>>)
    requires
        has_present(vals),
    ensures
        forall|i: int|
            0 <= i < vals.len() && vals[i] is Some ==> min_present(vals) <= (#[trigger] vals[i])->0
                <= max_present(vals),
        exists|i: int|
            0 <= i < vals.len() && (#[trigger] vals[i]) is Some && vals[i]->0 == min_present(vals),
        exists|i: int|
            0 <= i < vals.len() && (#[trigger] vals[i]) is Some && vals[i]->0 == max_present(vals),
    decreases vals.len(),
{
    let prefix = vals.drop_last();
    let n = vals.len() - 1;
    if vals[n] is Some {
        if has_present(prefix) {
            lemma_domain_bounds(prefix);
            assert forall|i: int|
                0 <= i < vals.len() && vals[i] is Some implies min_present(vals) <= (
            #[trigger] vals[i])->0 <= max_present(vals) by {
                if i < n {
                    assert(prefix[i] == vals[i]);
                }
            }
            let ghost wmin = choose|i: int|
                0 <= i < prefix.len() && (#[trigger] prefix[i]) is Some && prefix[i]->0
                    == min_present(prefix);
            let ghost wmax = choose|i: int|
                0 <= i < prefix.len() && (#[trigger] prefix[i]) is Some && prefix[i]->0
                    == max_present(prefix);
            if min_present(vals) == min_present(prefix) {
                assert(vals[wmin] is Some && vals[wmin]->0 == min_present(vals));
            } else {
                assert(vals[n] is Some && vals[n]->0 == min_present(vals));
            }
            if max_present(vals) == max_present(prefix) {
                assert(vals[wmax] is Some && vals[wmax]->0 == max_present(vals));
            } else {
                assert(vals[n] is Some && vals[n]->0 == max_present(vals));
            }
        } else {
            assert forall|i: int| 0 <= i < n implies !((#[trigger] vals[i]) is Some) by {
                assert(prefix[i] == vals[i]);
            }
            assert(vals[n] is Some && vals[n]->0 == min_present(vals));
            assert(vals[n] is Some && vals[n]->0 == max_present(vals));
        }
    } else {
        assert(has_present(prefix)) by {
            let w = choose|i: int| 0 <= i < vals.len() && (#[trigger] vals[i]) is Some;
            assert(w < n);
            assert(prefix[w] == vals[w]);
        }
        lemma_domain_bounds(prefix);
        assert forall|i: int|
            0 <= i < vals.len() && vals[i] is Some implies min_present(vals) <= (
        #[trigger] vals[i])->0 <= max_present(vals) by {
            if i < n {
                assert(prefix[i] == vals[i]);
            }
        }
        let ghost wmin = choose|i: int|
            0 <= i < prefix.len() && (#[trigger] prefix[i]) is Some && prefix[i]->0 == min_present(
                prefix,
            );
        let ghost wmax = choose|i: int|
            0 <= i < prefix.len() && (#[trigger] prefix[i]) is Some && prefix[i]->0 == max_present(
                prefix,
            );
        assert(vals[wmin] is Some && vals[wmin]->0 == min_present(vals));
        assert(vals[wmax] is Some && vals[wmax]->0 == max_present(vals));
    }
}

/// Attribute domain collapse law: the minimum equals the maximum exactly
/// when the column has one distinct present value.
pub proof fn lemma_domain_collapse(vals: Seq<Option<i64>>)
    requires
        has_present(vals),
    ensures
        (min_present(vals) == max_present(vals)) <==> (forall|i: int, j: int|
            0 <= i < vals.len() && 0 <= j < vals.len() && (#[trigger] vals[i]) is Some && (
            #[trigger] vals[j]) is Some ==> vals[i]->0 == vals[j]->0),
{
    lemma_domain_bounds(vals);
}

/// The minimum and maximum over the present cells of a column, or nothing
/// when every cell is absent.
pub fn column_min_max(vals: &Vec<Option<i64>>) -> (r: Option<(i64, i64)>)
    ensures
        r is Some <==> has_present(vals@),
        r matches Some(d) ==> d.0 as int == min_present(vals@) && d.1 as int == max_present(vals@),
{
    let mut cur: Option<(i64, i64)> = None;
    let mut i: usize = 0;
    while i < vals.len()
        invariant
            i <= vals@.len(),
            cur is Some <==> has_present(vals@.take(i as int)),
            cur matches Some(d) ==> d.0 as int == min_present(vals@.take(i as int))
                && d.1 as int == max_present(vals@.take(i as int)),
        decreases vals@.len() - i,
    {
        let ghost prev = vals@.take(i as int);
        let cell = vals[i];
        if let Some(v) = cell {
            cur = match cur {
                None => Some((v, v)),
                Some((lo, hi)) => Some(
                    (
                        if v < lo {
                            v
                        } else {
                            lo
                        },
                        if v > hi {
                            v
                        } else {
                            hi
                        },
                    ),
                ),
            };
        }
        proof {
            let t = vals@.take(i + 1);
            assert(t.drop_last() =~= prev);
            assert(t.last() == vals@[i as int]);
            if vals@[i as int] is Some {
                assert(t[i as int] is Some);
                assert(has_present(t));
            } else {
                assert(has_present(t) ==> has_present(prev)) by {
                    if has_present(t) {
                        let w = choose|k: int| 0 <= k < t.len() && (#[trigger] t[k]) is Some;
                        assert(w < i ==> prev[w] == t[w]);
                    }
                }
            }
        }
        i = i + 1;
    }
    proof {
        assert(vals@.take(vals@.len() as int) =~= vals@);
    }
    cur
}

/// The seven resolved columns a visualization pass works on: six geometry
/// columns and the chosen attribute column, all cast to numbers.
#[derive(Debug, Clone, PartialEq)]
pub struct ResolvedColumns {
    pub x: Vec<Option<i64>>,
    pub y: Vec<Option<i64>>,
    pub z: Vec<Option<i64>>,
    pub x_size: Vec<Option<i64>>,
    pub y_size: Vec<Option<i64>>,
    pub z_size: Vec<Option<i64>>,
    pub attribute: Vec<Option<i64>>,
}

/// The mathematical view of the resolved columns.
pub struct ResolvedView {
    pub x: Seq<Option<i64>>,
    pub y: Seq<Option<i64>>,
    pub z: Seq<Option<i64>>,
    pub x_size: Seq<Option<i64>>,
    pub y_size: Seq<Option<i64>>,
    pub z_size: Seq<Option<i64>>,
    pub attribute: Seq<Option<i64>>,
}

impl View for ResolvedColumns {
    type V = ResolvedView;

    open spec fn view(&self) -> ResolvedView {
        ResolvedView {
            x: self.x@,
            y: self.y@,
            z: self.z@,
            x_size: self.x_size@,
            y_size: self.y_size@,
            z_size: self.z_size@,
            attribute: self.attribute@,
        }
    }
}

/// Every present value of the column is within the fixed-point range.
pub open spec fn seq_in_range(vals: Seq<Option<i64>>) -> bool {
    forall|i: int|
        0 <= i < vals.len() && vals[i] is Some ==> scalar_in_range((#[trigger] vals[i])->0 as int)
}

impl ResolvedView {
    /// The number of rows the resolved columns cover.
    pub open spec fn rows(self) -> nat {
        self.x.len()
    }

    /// Equal column lengths and values within the fixed-point range.
    pub open spec fn wf(self) -> bool {
        &&& self.y.len() == self.rows()
        &&& self.z.len() == self.rows()
        &&& self.x_size.len() == self.rows()
        &&& self.y_size.len() == self.rows()
        &&& self.z_size.len() == self.rows()
        &&& self.attribute.len() == self.rows()
        &&& seq_in_range(self.x)
        &&& seq_in_range(self.y)
        &&& seq_in_range(self.z)
        &&& seq_in_range(self.x_size)
        &&& seq_in_range(self.y_size)
        &&& seq_in_range(self.z_size)
        &&& seq_in_range(self.attribute)
    }

    /// All seven values of row `i` are present.
    pub open spec fn row_full(self, i: int) -> bool {
        &&& self.x[i] is Some
        &&& self.y[i] is Some
        &&& self.z[i] is Some
        &&& self.x_size[i] is Some
        &&& self.y_size[i] is Some
        &&& self.z_size[i] is Some
        &&& self.attribute[i] is Some
    }
}

/// The instance a fully-present row yields: minimum corner at the row's
/// coordinates, maximum corner at coordinates plus sizes, and the packed
/// color of its attribute value under the gradient.
pub open spec fn instance_of_row(
    rv: ResolvedView,
    i: int,
    stops: Seq<GradientStop>,
    lo: int,
    hi: int,
) -> CuboidInstance {
    let x = rv.x[i]->0;
    let y = rv.y[i]->0;
    let z = rv.z[i]->0;
    let xs = rv.x_size[i]->0;
    let ys = rv.y_size[i]->0;
    let zs = rv.z_size[i]->0;
    let a = rv.attribute[i]->0;
    CuboidInstance {
        minimum: BlockCoordinates { x: x, y: y, z: z },
        maximum: BlockCoordinates {
            x: (x + xs) as i64,
            y: (y + ys) as i64,
            z: (z + zs) as i64,
        },
        color: pack_rgba_spec(color_at_spec(stops, a as int, lo, hi)),
    }
}

/// The instances the first `n` rows yield, in table order: one per
/// fully-present row, none for a row with any absent value.
pub open spec fn instances_prefix(
    rv: ResolvedView,
    stops: Seq<GradientStop>,
    lo: int,
    hi: int,
    n: int,
) -> Seq<CuboidInstance>
    decreases n,
{
    if n <= 0 {
        Seq::empty()
    } else if rv.row_full(n - 1) {
        instances_prefix(rv, stops, lo, hi, n - 1).push(instance_of_row(rv, n - 1, stops, lo, hi))
    } else {
        instances_prefix(rv, stops, lo, hi, n - 1)
    }
}

/// The whole instance stream of the resolved columns.
pub open spec fn instances_spec(
    rv: ResolvedView,
    stops: Seq<GradientStop>,
    lo: int,
    hi: int,
) -> Seq<CuboidInstance> {
    instances_prefix(rv, stops, lo, hi, rv.rows() as int)
}

/// How many of the first `n` rows are fully present.
pub open spec fn count_full(rv: ResolvedView, n: int) -> int
    decreases n,
{
    if n <= 0 {
        0
    } else {
        count_full(rv, n - 1) + if rv.row_full(n - 1) {
            1int
        } else {
            0int
        }
    }
}

/// Skipping law: the emitted instances are exactly one per fully-present
/// row — the stream over `n` rows has as many instances as there are
/// fully-present rows among them.
pub proof fn lemma_instance_count(
    rv: ResolvedView,
    stops: Seq<GradientStop>,
    lo: int,
    hi: int,
    n: int,
)
    requires
        0 <= n,
    ensures
        instances_prefix(rv, stops, lo, hi, n).len() == count_full(rv, n),
    decreases n,
{
    if n > 0 {
        lemma_instance_count(rv, stops, lo, hi, n - 1);
    }
}

/// The count of fully-present rows grows by at most one per row.
pub proof fn lemma_count_full_monotonic(rv: ResolvedView, m: int, n: int)
    requires
        0 <= m <= n,
    ensures
        count_full(rv, m) <= count_full(rv, n),
        count_full(rv, n) <= count_full(rv, m) + (n - m),
    decreases n - m,
{
    if m < n {
        lemma_count_full_monotonic(rv, m, n - 1);
    }
}

/// Skipping law: a row with an absent value contributes no instance — the
/// stream is unchanged by that row.
pub proof fn lemma_row_skipped(
    rv: ResolvedView,
    stops: Seq<GradientStop>,
    lo: int,
    hi: int,
    i: int,
)
    requires
        0 <= i,
        !rv.row_full(i),
    ensures
        instances_prefix(rv, stops, lo, hi, i + 1) == instances_prefix(rv, stops, lo, hi, i),
        count_full(rv, i + 1) == count_full(rv, i),
{
}

/// Corner law, over a prefix: a fully-present row `i` yields exactly the
/// instance built from its values, standing at the position given by the
/// number of fully-present rows before it.
proof fn lemma_row_emitted_prefix(
    rv: ResolvedView,
    stops: Seq<GradientStop>,
    lo: int,
    hi: int,
    i: int,
    n: int,
)
    requires
        0 <= i < n,
        rv.row_full(i),
    ensures
        instances_prefix(rv, stops, lo, hi, n)[count_full(rv, i)] == instance_of_row(
            rv,
            i,
            stops,
            lo,
            hi,
        ),
    decreases n,
{
    lemma_instance_count(rv, stops, lo, hi, i);
    lemma_instance_count(rv, stops, lo, hi, n);
    if n == i + 1 {
    } else {
        lemma_row_emitted_prefix(rv, stops, lo, hi, i, n - 1);
        lemma_count_full_monotonic(rv, i + 1, n - 1);
        lemma_instance_count(rv, stops, lo, hi, n - 1);
    }
}

/// Corner law: each fully-present row `i` yields exactly the instance
/// built from its values — minimum corner `(x, y, z)`, maximum corner
/// `(x + xs, y + ys, z + zs)`, its attribute's color — standing in the
/// stream at the position given by the number of fully-present rows
/// before it.
pub proof fn lemma_row_emitted(
    rv: ResolvedView,
    stops: Seq<GradientStop>,
    lo: int,
    hi: int,
    i: int,
)
    requires
        0 <= i < rv.rows(),
        rv.row_full(i),
    ensures
        instances_spec(rv, stops, lo, hi)[count_full(rv, i)] == instance_of_row(
            rv,
            i,
            stops,
            lo,
            hi,
        ),
{
    lemma_row_emitted_prefix(rv, stops, lo, hi, i, rv.rows() as int);
}

/// Constant-attribute law: over a collapsed attribute domain, every
/// emitted instance carries the gradient's color at its domain minimum.
pub proof fn lemma_constant_domain_color(
    rv: ResolvedView,
    stops: Seq<GradientStop>,
    lo: int,
    n: int,
)
    requires
        stops_wf(stops),
        0 <= n,
    ensures
        forall|j: int|
            0 <= j < instances_prefix(rv, stops, lo, lo, n).len() ==> (#[trigger] instances_prefix(
                rv,
                stops,
                lo,
                lo,
                n,
            )[j]).color == pack_rgba_spec(
                crate::gradient::sample_spec(stops, stops[0].position as int),
            ),
    decreases n,
{
    if n > 0 {
        lemma_constant_domain_color(rv, stops, lo, n - 1);
        let prev = instances_prefix(rv, stops, lo, lo, n - 1);
        let curr = instances_prefix(rv, stops, lo, lo, n);
        let shade = pack_rgba_spec(crate::gradient::sample_spec(stops, stops[0].position as int));
        assert forall|j: int| 0 <= j < curr.len() implies (#[trigger] curr[j]).color == shade by {
            if rv.row_full(n - 1) {
                if j < prev.len() {
                    assert(curr[j] == prev[j]);
                } else {
                    assert(curr[j] == instance_of_row(rv, n - 1, stops, lo, lo));
                }
            } else {
                assert(curr == prev);
            }
        }
    }
}

/// Builds the instance stream over resolved columns: one colored cuboid
/// per fully-present row, in table order.
fn build_instances(cols: &ResolvedColumns, gradient: &Gradient, lo: i64, hi: i64) -> (out: Vec<
    CuboidInstance,
>)
    requires
        cols@.wf(),
        gradient.wf(),
        lo <= hi,
        scalar_in_range(lo as int),
        scalar_in_range(hi as int),
        forall|i: int|
            0 <= i < cols@.attribute.len() && cols@.attribute[i] is Some ==> lo as int <= (
            #[trigger] cols@.attribute[i])->0 as int <= hi as int,
    ensures
        out@ == instances_spec(cols@, gradient.stops@, lo as int, hi as int),
{
    let n = cols.x.len();
    let mut out: Vec<CuboidInstance> = Vec::new();
    let mut i: usize = 0;
    while i < n
        invariant
            i <= n,
            n == cols@.rows(),
            cols@.wf(),
            gradient.wf(),
            lo <= hi,
            scalar_in_range(lo as int),
            scalar_in_range(hi as int),
            forall|k: int|
                0 <= k < cols@.attribute.len() && cols@.attribute[k] is Some ==> lo as int <= (
                #[trigger] cols@.attribute[k])->0 as int <= hi as int,
            out@ == instances_prefix(cols@, gradient.stops@, lo as int, hi as int, i as int),
        decreases n - i,
    {
        if cols.x[i].is_some() && cols.y[i].is_some() && cols.z[i].is_some()
            && cols.x_size[i].is_some() && cols.y_size[i].is_some() && cols.z_size[i].is_some()
            && cols.attribute[i].is_some() {
            let x = cols.x[i].unwrap();
            let y = cols.y[i].unwrap();
            let z = cols.z[i].unwrap();
            let xs = cols.x_size[i].unwrap();
            let ys = cols.y_size[i].unwrap();
            let zs = cols.z_size[i].unwrap();
            let a = cols.attribute[i].unwrap();
            let color = gradient.color_for(a, lo, hi);
            let inst = CuboidInstance {
                minimum: BlockCoordinates { x, y, z },
                maximum: BlockCoordinates { x: x + xs, y: y + ys, z: z + zs },
                color: pack_rgba(color),
            };
            out.push(inst);
            proof {
                assert(cols@.row_full(i as int));
                assert(inst == instance_of_row(
                    cols@,
                    i as int,
                    gradient.stops@,
                    lo as int,
                    hi as int,
                ));
            }
        } else {
            proof {
                assert(!cols@.row_full(i as int));
            }
        }
        i = i + 1;
    }
    out
}

/// The character-sequence views of a list of names.
pub open spec fn string_views(names: Seq<String>) -> Seq<Seq<char>> {
    names.map_values(|s: String| s@)
}

/// A named block model: a table plus the six geometry column bindings.
/// The bindings are resolved anew on every visualization request.
#[derive(Debug, Clone, PartialEq)]
pub struct BlockModel {
    pub name: String,
    pub table: Table,
    pub columns: Vec<String>,
    pub x: String,
    pub y: String,
    pub z: String,
    pub x_size: String,
    pub y_size: String,
    pub z_size: String,
}

/// One cuboid of the non-instanced variant: the mesh box of one row.
#[derive(Debug, PartialEq, Eq, Structural, Copy, Clone)]
pub struct BoxGeometry {
    pub minimum: BlockCoordinates,
    pub maximum: BlockCoordinates,
}

/// The mesh box and flat color a fully-present row yields.
pub open spec fn mesh_of_row(
    rv: ResolvedView,
    i: int,
    stops: Seq<GradientStop>,
    lo: int,
    hi: int,
) -> (BoxGeometry, Rgb) {
    let x = rv.x[i]->0;
    let y = rv.y[i]->0;
    let z = rv.z[i]->0;
    let xs = rv.x_size[i]->0;
    let ys = rv.y_size[i]->0;
    let zs = rv.z_size[i]->0;
    let a = rv.attribute[i]->0;
    (
        BoxGeometry {
            minimum: BlockCoordinates { x: x, y: y, z: z },
            maximum: BlockCoordinates {
                x: (x + xs) as i64,
                y: (y + ys) as i64,
                z: (z + zs) as i64,
            },
        },
        color_at_spec(stops, a as int, lo, hi),
    )
}

/// The mesh-and-color pairs the first `n` rows yield, one per
/// fully-present row, in table order.
pub open spec fn meshes_prefix(
    rv: ResolvedView,
    stops: Seq<GradientStop>,
    lo: int,
    hi: int,
    n: int,
) -> Seq<(BoxGeometry, Rgb)>
    decreases n,
{
    if n <= 0 {
        Seq::empty()
    } else if rv.row_full(n - 1) {
        meshes_prefix(rv, stops, lo, hi, n - 1).push(mesh_of_row(rv, n - 1, stops, lo, hi))
    } else {
        meshes_prefix(rv, stops, lo, hi, n - 1)
    }
}

/// The whole mesh stream of the resolved columns.
pub open spec fn meshes_spec(
    rv: ResolvedView,
    stops: Seq<GradientStop>,
    lo: int,
    hi: int,
) -> Seq<(BoxGeometry, Rgb)> {
    meshes_prefix(rv, stops, lo, hi, rv.rows() as int)
}

/// A well-formed numeric column of a well-formed table spans the table's
/// rows and keeps its values in the fixed-point range.
proof fn lemma_numeric_column(t: Table, nm: Seq<char>)
    requires
        t.wf(),
        t.col_numeric(nm),
    ensures
        t.numbers_of(nm).len() == t.spec_row_count(),
        seq_in_range(t.numbers_of(nm)),
{
    crate::table::lemma_index_of_name(t.columns@, nm);
    let idx = crate::table::index_of_name(t.columns@, nm);
    crate::table::lemma_as_numbers_len(t.columns@[idx].values);
}

impl BlockModel {
    /// A well-formed model: its table is well-formed and the cached
    /// column-name list mirrors the table.
    pub open spec fn wf(&self) -> bool {
        &&& self.table.wf()
        &&& string_views(self.columns@) == self.table.spec_column_names()
    }

    /// Binds a table to its geometry column names, caching the table's
    /// column names for display.
    pub fn new(
        name: String,
        table: Table,
        x: String,
        y: String,
        z: String,
        x_size: String,
        y_size: String,
        z_size: String,
    ) -> (m: BlockModel)
        ensures
            m.name == name,
            m.table == table,
            m.x == x,
            m.y == y,
            m.z == z,
            m.x_size == x_size,
            m.y_size == y_size,
            m.z_size == z_size,
            string_views(m.columns@) == table.spec_column_names(),
            table.wf() ==> m.wf(),
    {
        let mut columns: Vec<String> = Vec::new();
        let mut i: usize = 0;
        while i < table.columns.len()
            invariant
                i <= table.columns@.len(),
                columns@.len() == i,
                forall|j: int| 0 <= j < i ==> (#[trigger] columns@[j])@ == table.columns@[j].name@,
            decreases table.columns@.len() - i,
        {
            columns.push(table.columns[i].name.clone());
            i = i + 1;
        }
        proof {
            assert(string_views(columns@) =~= table.spec_column_names());
        }
        BlockModel { name, table, columns, x, y, z, x_size, y_size, z_size }
    }

    /// The first failure when resolving the six geometry bindings and then
    /// the attribute column, each checked for presence and then for
    /// numeric castability; nothing when all seven resolve.
    pub open spec fn resolve_failure(&self, attr: Seq<char>) -> Option<(bool, Seq<char>)> {
        if !self.table.has_column(self.x@) {
            Some((true, self.x@))
        } else if !self.table.col_numeric(self.x@) {
            Some((false, self.x@))
        } else if !self.table.has_column(self.y@) {
            Some((true, self.y@))
        } else if !self.table.col_numeric(self.y@) {
            Some((false, self.y@))
        } else if !self.table.has_column(self.z@) {
            Some((true, self.z@))
        } else if !self.table.col_numeric(self.z@) {
            Some((false, self.z@))
        } else if !self.table.has_column(self.x_size@) {
            Some((true, self.x_size@))
        } else if !self.table.col_numeric(self.x_size@) {
            Some((false, self.x_size@))
        } else if !self.table.has_column(self.y_size@) {
            Some((true, self.y_size@))
        } else if !self.table.col_numeric(self.y_size@) {
            Some((false, self.y_size@))
        } else if !self.table.has_column(self.z_size@) {
            Some((true, self.z_size@))
        } else if !self.table.col_numeric(self.z_size@) {
            Some((false, self.z_size@))
        } else if !self.table.has_column(attr) {
            Some((true, attr))
        } else if !self.table.col_numeric(attr) {
            Some((false, attr))
        } else {
            None
        }
    }

    /// The view of the seven resolved columns, once resolution succeeds.
    pub open spec fn resolved_view(&self, attr: Seq<char>) -> ResolvedView {
        ResolvedView {
            x: self.table.numbers_of(self.x@),
            y: self.table.numbers_of(self.y@),
            z: self.table.numbers_of(self.z@),
            x_size: self.table.numbers_of(self.x_size@),
            y_size: self.table.numbers_of(self.y_size@),
            z_size: self.table.numbers_of(self.z_size@),
            attribute: self.table.numbers_of(attr),
        }
    }

    /// Resolves and casts the six geometry columns and the attribute
    /// column, reporting the first failure in binding order.
    pub fn resolve_columns(&self, column: &str) -> (r: Result<ResolvedColumns, ModelError>)
        ensures
            match self.resolve_failure(column@) {
                Some(f) => r matches Err(e) && e.matches_failure(f),
                None => r matches Ok(c) && c@ == self.resolved_view(column@),
            },
    {
        let x = match fetch_column(&self.table, self.x.as_str()) {
            Ok(v) => v,
            Err(e) => return Err(e),
        };
        let y = match fetch_column(&self.table, self.y.as_str()) {
            Ok(v) => v,
            Err(e) => return Err(e),
        };
        let z = match fetch_column(&self.table, self.z.as_str()) {
            Ok(v) => v,
            Err(e) => return Err(e),
        };
        let x_size = match fetch_column(&self.table, self.x_size.as_str()) {
            Ok(v) => v,
            Err(e) => return Err(e),
        };
        let y_size = match fetch_column(&self.table, self.y_size.as_str()) {
            Ok(v) => v,
            Err(e) => return Err(e),
        };
        let z_size = match fetch_column(&self.table, self.z_size.as_str()) {
            Ok(v) => v,
            Err(e) => return Err(e),
        };
        let attribute = match fetch_column(&self.table, column) {
            Ok(v) => v,
            Err(e) => return Err(e),
        };
        Ok(ResolvedColumns { x, y, z, x_size, y_size, z_size, attribute })
    }

    /// The failure of resolving the attribute column alone.
    pub open spec fn attr_failure(&self, attr: Seq<char>) -> Option<(bool, Seq<char>)> {
        if !self.table.has_column(attr) {
            Some((true, attr))
        } else if !self.table.col_numeric(attr) {
            Some((false, attr))
        } else {
            None
        }
    }

    /// The attribute domain: the minimum and maximum over the present
    /// values of the chosen column. Every present value lies between the
    /// two bounds and both bounds are attained. A column with no present
    /// value has no domain.
    pub fn attribute_domain(&self, column: &str) -> (r: Result<(i64, i64), ModelError>)
        ensures
            match self.attr_failure(column@) {
                Some(f) => r matches Err(e) && e.matches_failure(f),
                None => {
                    let vals = self.table.numbers_of(column@);
                    if has_present(vals) {
                        &&& r matches Ok(d)
                        &&& d.0 as int == min_present(vals)
                        &&& d.1 as int == max_present(vals)
                        &&& forall|i: int|
                            0 <= i < vals.len() && vals[i] is Some ==> d.0 as int <= (
                            #[trigger] vals[i])->0 as int <= d.1 as int
                        &&& exists|i: int|
                            0 <= i < vals.len() && (#[trigger] vals[i]) is Some && vals[i]->0
                                == d.0 as int
                        &&& exists|i: int|
                            0 <= i < vals.len() && (#[trigger] vals[i]) is Some && vals[i]->0
                                == d.1 as int
                    } else {
                        r matches Err(e) && e matches ModelError::EmptyDomain
                    }
                },
            },
    {
        let vals = match fetch_column(&self.table, column) {
            Ok(v) => v,
            Err(e) => return Err(e),
        };
        match column_min_max(&vals) {
            None => Err(ModelError::EmptyDomain),
            Some(d) => {
                proof {
                    lemma_domain_bounds(vals@);
                }
                Ok(d)
            },
        }
    }

    /// Builds the instanced visualization of one attribute column: the
    /// sealed fixed-capacity batches of colored cuboids with their
    /// bounding boxes (`batch_post` states the full outcome).
    pub fn resolve_and_batch(&self, column: &str, gradient: &Gradient, capacity: usize) -> (r:
        Result<Vec<(InstanceBatch, BoundingBox)>, ModelError>)
        requires
            self.wf(),
            gradient.wf(),
            capacity >= 1,
        ensures
            batch_post(*self, column@, gradient.stops@, capacity as int, r),
    {
        let instances = match self.resolved_instances(column, gradient) {
            Ok(v) => v,
            Err(e) => return Err(e),
        };
        Ok(partition_batches(&instances, capacity))
    }

    /// Builds the instanced visualization with the other trailing-batch
    /// configuration: instances past the last full batch are emitted as a
    /// final short batch instead of being dropped
    /// (`batch_post_with_trailing` states the full outcome).
    pub fn resolve_and_batch_with_trailing(
        &self,
        column: &str,
        gradient: &Gradient,
        capacity: usize,
    ) -> (r: Result<Vec<(InstanceBatch, BoundingBox)>, ModelError>)
        requires
            self.wf(),
            gradient.wf(),
            capacity >= 1,
        ensures
            batch_post_with_trailing(*self, column@, gradient.stops@, capacity as int, r),
    {
        let instances = match self.resolved_instances(column, gradient) {
            Ok(v) => v,
            Err(e) => return Err(e),
        };
        Ok(crate::render::partition_batches_with_trailing(&instances, capacity))
    }

    /// Resolves the columns, computes the attribute domain, and builds the
    /// instance stream the batching configurations partition.
    fn resolved_instances(&self, column: &str, gradient: &Gradient) -> (r: Result<
        Vec<CuboidInstance>,
        ModelError,
    >)
        requires
            self.wf(),
            gradient.wf(),
        ensures
            match self.resolve_failure(column@) {
                Some(f) => r matches Err(e) && e.matches_failure(f),
                None => {
                    let rv = self.resolved_view(column@);
                    if has_present(rv.attribute) {
                        r matches Ok(out) && out@ == instances_spec(
                            rv,
                            gradient.stops@,
                            min_present(rv.attribute),
                            max_present(rv.attribute),
                        )
                    } else {
                        r matches Err(e) && e matches ModelError::EmptyDomain
                    }
                },
            },
    {
        let cols = match self.resolve_columns(column) {
            Ok(c) => c,
            Err(e) => return Err(e),
        };
        let d = match column_min_max(&cols.attribute) {
            None => return Err(ModelError::EmptyDomain),
            Some(d) => d,
        };
        proof {
            lemma_resolved_wf(self, column@);
            lemma_domain_bounds(cols.attribute@);
        }
        Ok(build_instances(&cols, gradient, d.0, d.1))
    }

    /// Builds the non-instanced visualization of one attribute column:
    /// one mesh box and flat color per fully-present row, with no
    /// batching (`mesh_post` states the full outcome).
    pub fn resolve_and_mesh(&self, column: &str, gradient: &Gradient) -> (r: Result<
        Vec<(BoxGeometry, Rgb)>,
        ModelError,
    >)
        requires
            self.wf(),
            gradient.wf(),
        ensures
            mesh_post(*self, column@, gradient.stops@, r),
    {
        let cols = match self.resolve_columns(column) {
            Ok(c) => c,
            Err(e) => return Err(e),
        };
        let d = match column_min_max(&cols.attribute) {
            None => return Err(ModelError::EmptyDomain),
            Some(d) => d,
        };
        proof {
            lemma_resolved_wf(self, column@);
            lemma_domain_bounds(cols.attribute@);
        }
        let out = build_meshes(&cols, gradient, d.0, d.1);
        Ok(out)
    }

    /// The instanced visualization, under the name renderers that draw
    /// cuboid instances with axis-aligned boxes know it by.
    pub fn aabb_instances(&self, column: &str, cmap: &Gradient, patch_size: usize) -> (r: Result<
        Vec<(InstanceBatch, BoundingBox)>,
        ModelError,
    >)
        requires
            self.wf(),
            cmap.wf(),
            patch_size >= 1,
        ensures
            batch_post(*self, column@, cmap.stops@, patch_size as int, r),
    {
        self.resolve_and_batch(column, cmap, patch_size)
    }

    /// The non-instanced visualization, under the name renderers that
    /// draw one mesh and material per block know it by.
    pub fn mesh_material(&self, column: &str, cmap: &Gradient) -> (r: Result<
        Vec<(BoxGeometry, Rgb)>,
        ModelError,
    >)
        requires
            self.wf(),
            cmap.wf(),
        ensures
            mesh_post(*self, column@, cmap.stops@, r),
    {
        self.resolve_and_mesh(column, cmap)
    }
}

/// What `resolve_and_batch` returns: the first resolution failure as its
/// error; an empty attribute domain as its error; else the sealed batches
/// of the instance stream under the computed domain.
pub open spec fn batch_post(
    m: BlockModel,
    attr: Seq<char>,
    stops: Seq<GradientStop>,
    cap: int,
    r: Result<Vec<(InstanceBatch, BoundingBox)>, ModelError>,
) -> bool {
    match m.resolve_failure(attr) {
        Some(f) => r matches Err(e) && e.matches_failure(f),
        None => {
            let rv = m.resolved_view(attr);
            if has_present(rv.attribute) {
                r matches Ok(pairs) && batches_match(
                    pairs@,
                    instances_spec(rv, stops, min_present(rv.attribute), max_present(rv.attribute)),
                    cap,
                )
            } else {
                r matches Err(e) && e matches ModelError::EmptyDomain
            }
        },
    }
}

/// What `resolve_and_batch_with_trailing` returns: as `batch_post`, but
/// the partitioning also emits the trailing instances as a final short
/// batch.
pub open spec fn batch_post_with_trailing(
    m: BlockModel,
    attr: Seq<char>,
    stops: Seq<GradientStop>,
    cap: int,
    r: Result<Vec<(InstanceBatch, BoundingBox)>, ModelError>,
) -> bool {
    match m.resolve_failure(attr) {
        Some(f) => r matches Err(e) && e.matches_failure(f),
        None => {
            let rv = m.resolved_view(attr);
            if has_present(rv.attribute) {
                r matches Ok(pairs) && crate::render::batches_match_with_trailing(
                    pairs@,
                    instances_spec(rv, stops, min_present(rv.attribute), max_present(rv.attribute)),
                    cap,
                )
            } else {
                r matches Err(e) && e matches ModelError::EmptyDomain
            }
        },
    }
}

/// What `resolve_and_mesh` returns: as `batch_post`, but with the whole
/// mesh stream in place of the batches.
pub open spec fn mesh_post(
    m: BlockModel,
    attr: Seq<char>,
    stops: Seq<GradientStop>,
    r: Result<Vec<(BoxGeometry, Rgb)>, ModelError>,
) -> bool {
    match m.resolve_failure(attr) {
        Some(f) => r matches Err(e) && e.matches_failure(f),
        None => {
            let rv = m.resolved_view(attr);
            if has_present(rv.attribute) {
                r matches Ok(pairs) && pairs@ == meshes_spec(
                    rv,
                    stops,
                    min_present(rv.attribute),
                    max_present(rv.attribute),
                )
            } else {
                r matches Err(e) && e matches ModelError::EmptyDomain
            }
        },
    }
}

/// Resolution succeeding on a well-formed model leaves well-formed
/// resolved columns.
pub proof fn lemma_resolved_wf(m: &BlockModel, attr: Seq<char>)
    requires
        m.wf(),
        m.resolve_failure(attr) is None,
    ensures
        m.resolved_view(attr).wf(),
{
    lemma_numeric_column(m.table, m.x@);
    lemma_numeric_column(m.table, m.y@);
    lemma_numeric_column(m.table, m.z@);
    lemma_numeric_column(m.table, m.x_size@);
    lemma_numeric_column(m.table, m.y_size@);
    lemma_numeric_column(m.table, m.z_size@);
    lemma_numeric_column(m.table, attr);
}

/// Resolves one named column to numbers, naming the column in the error.
fn fetch_column(table: &Table, name: &str) -> (r: Result<Vec<Option<i64>>, ModelError>)
    ensures
        match r {
            Ok(vals) => table.col_numeric(name@) && vals@ == table.numbers_of(name@),
            Err(e) => (!table.has_column(name@) && e.is_missing(name@)) || (table.has_column(name@)
                && !table.col_numeric(name@) && e.is_mismatch(name@)),
        },
{
    match table.get_number_column(name) {
        Ok(v) => Ok(v),
        Err(ColumnFault::Missing) => Err(ModelError::MissingColumn(name.to_owned())),
        Err(ColumnFault::NotNumeric) => Err(ModelError::TypeMismatch(name.to_owned())),
    }
}

/// Builds the mesh stream over resolved columns: one mesh box and flat
/// color per fully-present row, in table order.
fn build_meshes(cols: &ResolvedColumns, gradient: &Gradient, lo: i64, hi: i64) -> (out: Vec<
    (BoxGeometry, Rgb),
>)
    requires
        cols@.wf(),
        gradient.wf(),
        lo <= hi,
        scalar_in_range(lo as int),
        scalar_in_range(hi as int),
        forall|i: int|
            0 <= i < cols@.attribute.len() && cols@.attribute[i] is Some ==> lo as int <= (
            #[trigger] cols@.attribute[i])->0 as int <= hi as int,
    ensures
        out@ == meshes_spec(cols@, gradient.stops@, lo as int, hi as int),
{
    let n = cols.x.len();
    let mut out: Vec<(BoxGeometry, Rgb)> = Vec::new();
    let mut i: usize = 0;
    while i < n
        invariant
            i <= n,
            n == cols@.rows(),
            cols@.wf(),
            gradient.wf(),
            lo <= hi,
            scalar_in_range(lo as int),
            scalar_in_range(hi as int),
            forall|k: int|
                0 <= k < cols@.attribute.len() && cols@.attribute[k] is Some ==> lo as int <= (
                #[trigger] cols@.attribute[k])->0 as int <= hi as int,
            out@ == meshes_prefix(cols@, gradient.stops@, lo as int, hi as int, i as int),
        decreases n - i,
    {
        if cols.x[i].is_some() && cols.y[i].is_some() && cols.z[i].is_some()
            && cols.x_size[i].is_some() && cols.y_size[i].is_some() && cols.z_size[i].is_some()
            && cols.attribute[i].is_some() {
            let x = cols.x[i].unwrap();
            let y = cols.y[i].unwrap();
            let z = cols.z[i].unwrap();
            let xs = cols.x_size[i].unwrap();
            let ys = cols.y_size[i].unwrap();
            let zs = cols.z_size[i].unwrap();
            let a = cols.attribute[i].unwrap();
            let color = gradient.color_for(a, lo, hi);
            let entry = (
                BoxGeometry {
                    minimum: BlockCoordinates { x, y, z },
                    maximum: BlockCoordinates { x: x + xs, y: y + ys, z: z + zs },
                },
                color,
            );
            out.push(entry);
            proof {
                assert(cols@.row_full(i as int));
                assert(entry == mesh_of_row(
                    cols@,
                    i as int,
                    gradient.stops@,
                    lo as int,
                    hi as int,
                ));
            }
        } else {
            proof {
                assert(!cols@.row_full(i as int));
            }
        }
        i = i + 1;
    }
    out
}

/// The index of the first registry entry with the given name, or a
/// negative value when no entry has it.
pub open spec fn index_of_model(entries: Seq<(String, BlockModel)>, name: Seq<char>) -> int
    decreases entries.len(),
{
    if entries.len() == 0 {
        -1
    } else if entries[0].0@ == name {
        0
    } else if index_of_model(entries.drop_first(), name) < 0 {
        -1
    } else {
        index_of_model(entries.drop_first(), name) + 1
    }
}

/// What `index_of_model` finds: a valid index bearing the name, before
/// which no entry bears it; or nothing, and then no entry bears the name.
pub proof fn lemma_index_of_model(entries: Seq<(String, BlockModel)>, name: Seq<char>)
    ensures
        index_of_model(entries, name) >= 0 ==> index_of_model(entries, name) < entries.len()
            && entries[index_of_model(entries, name)].0@ == name,
        index_of_model(entries, name) >= 0 ==> forall|i: int|
            0 <= i < index_of_model(entries, name) ==> (#[trigger] entries[i]).0@ != name,
        index_of_model(entries, name) < 0 ==> forall|i: int|
            0 <= i < entries.len() ==> (#[trigger] entries[i]).0@ != name,
    decreases entries.len(),
{
    if entries.len() > 0 && entries[0].0@ != name {
        lemma_index_of_model(entries.drop_first(), name);
        assert(forall|i: int|
            1 <= i < entries.len() ==> #[trigger] entries[i] == entries.drop_first()[i - 1]);
    }
}

/// The session registry of loaded block models, keyed by name. A model
/// loaded under an existing name replaces the old one wholesale; readers
/// must not hold a model across a reload.
#[derive(Debug, Clone, PartialEq)]
pub struct BlockModelDB {
    pub block_models: Vec<(String, BlockModel)>,
}

impl BlockModelDB {
    /// Registry names are pairwise distinct.
    pub open spec fn names_unique(&self) -> bool {
        forall|p: int, q: int|
            0 <= p < q < self.block_models@.len() ==> self.block_models@[p].0@
                != self.block_models@[q].0@
    }

    /// The model registered under a name, if any.
    pub open spec fn spec_get(&self, name: Seq<char>) -> Option<BlockModel> {
        let i = index_of_model(self.block_models@, name);
        if i >= 0 {
            Some(self.block_models@[i].1)
        } else {
            None
        }
    }

    /// An empty registry.
    pub fn new() -> (db: BlockModelDB)
        ensures
            db.block_models@.len() == 0,
            db.names_unique(),
    {
        BlockModelDB { block_models: Vec::new() }
    }

    /// Looks a model up by name.
    pub fn get(&self, name: &str) -> (r: Option<&BlockModel>)
        ensures
            match r {
                Some(m) => self.spec_get(name@) == Some(*m),
                None => self.spec_get(name@) is None,
            },
    {
        let mut i: usize = 0;
        while i < self.block_models.len()
            invariant
                i <= self.block_models@.len(),
                forall|j: int| 0 <= j < i ==> (#[trigger] self.block_models@[j]).0@ != name@,
            decreases self.block_models@.len() - i,
        {
            let entry = &self.block_models[i];
            if crate::table::str_eq(entry.0.as_str(), name) {
                proof {
                    lemma_index_of_model(self.block_models@, name@);
                }
                return Some(&entry.1);
            }
            i = i + 1;
        }
        proof {
            lemma_index_of_model(self.block_models@, name@);
        }
        None
    }

    /// Registers a model under a name: a new name is appended, an
    /// existing name has its model replaced wholesale in place.
    pub fn insert(&mut self, name: String, model: BlockModel)
        requires
            old(self).names_unique(),
        ensures
            final(self).names_unique(),
            ({
                let entries = old(self).block_models@;
                let i = index_of_model(entries, name@);
                if i >= 0 {
                    final(self).block_models@ == entries.update(i, (name, model))
                } else {
                    final(self).block_models@ == entries.push((name, model))
                }
            }),
            final(self).spec_get(name@) == Some(model),
    {
        proof {
            lemma_index_of_model(self.block_models@, name@);
        }
        let ghost entries = self.block_models@;
        let mut i: usize = 0;
        let n = self.block_models.len();
        while i < n
            invariant
                i <= n,
                n == self.block_models@.len(),
                self.block_models@ == entries,
                entries == old(self).block_models@,
                self.names_unique(),
                forall|j: int| 0 <= j < i ==> (#[trigger] self.block_models@[j]).0@ != name@,
            decreases n - i,
        {
            if crate::table::str_eq(self.block_models[i].0.as_str(), name.as_str()) {
                proof {
                    lemma_index_of_model(entries, name@);
                    assert(entries[i as int].0@ == name@);
                    assert(index_of_model(entries, name@) == i as int);
                }
                self.block_models.remove(i);
                self.block_models.insert(i, (name, model));
                proof {
                    assert(self.block_models@ =~= entries.update(i as int, (name, model)));
                    assert forall|p: int, q: int|
                        0 <= p < q < self.block_models@.len() implies self.block_models@[p].0@
                        != self.block_models@[q].0@ by {
                        assert(entries[i as int].0@ == name@);
                        assert(entries[p].0@ != entries[q].0@);
                        if p != i {
                            assert(self.block_models@[p] == entries[p]);
                        }
                        if q != i {
                            assert(self.block_models@[q] == entries[q]);
                        }
                    }
                    lemma_index_of_model(self.block_models@, name@);
                    assert(forall|j: int|
                        0 <= j < i ==> (#[trigger] self.block_models@[j]).0@ != name@);
                    assert(self.block_models@[i as int].0@ == name@);
                }
                return ;
            }
            i = i + 1;
        }
        proof {
            lemma_index_of_model(entries, name@);
        }
        self.block_models.push((name, model));
        proof {
            lemma_index_of_model(self.block_models@, name@);
            assert(forall|j: int|
                0 <= j < entries.len() ==> #[trigger] self.block_models@[j] == entries[j]);
            assert(self.block_models@[entries.len() as int].0@ == name@);
        }
    }
}

impl Default for BlockModelDB {
    /// The default registry is empty.
    fn default() -> (db: Self)
        ensures
            db.block_models@.len() == 0,
            db.names_unique(),
    {
        BlockModelDB { block_models: Vec::new() }
    }
}

/// The model a visualization currently works on, if one is selected.
#[derive(Debug, Clone, PartialEq)]
pub struct BlockModelResource {
    pub block_model: Option<BlockModel>,
}

impl Default for BlockModelResource {
    /// The default resource holds no model.
    fn default() -> (r: Self)
        ensures
            r.block_model is None,
    {
        BlockModelResource { block_model: None }
    }
}

/// Batching idempotence law: two runs over the same model, column,
/// gradient and capacity succeed or fail together, and on success yield
/// the same number of sealed batches, the same instances batch for batch,
/// and the same box for every batch.
pub proof fn lemma_batch_idempotent(
    m: BlockModel,
    attr: Seq<char>,
    stops: Seq<GradientStop>,
    cap: int,
    r1: Result<Vec<(InstanceBatch, BoundingBox)>, ModelError>,
    r2: Result<Vec<(InstanceBatch, BoundingBox)>, ModelError>,
)
    requires
        cap >= 1,
        batch_post(m, attr, stops, cap, r1),
        batch_post(m, attr, stops, cap, r2),
    ensures
        r1 is Ok <==> r2 is Ok,
        r1 matches Ok(p1) ==> r2 matches Ok(p2) ==> p1@.len() == p2@.len() && (forall|j: int|
            0 <= j < p1@.len() ==> (#[trigger] p1@[j]).0.instances@ == p2@[j].0.instances@
                && p1@[j].1 == p2@[j].1),
{
    match m.resolve_failure(attr) {
        Some(f) => {},
        None => {
            let rv = m.resolved_view(attr);
            if has_present(rv.attribute) {
                let insts = instances_spec(
                    rv,
                    stops,
                    min_present(rv.attribute),
                    max_present(rv.attribute),
                );
                match (r1, r2) {
                    (Ok(p1), Ok(p2)) => {
                        crate::render::lemma_batching_deterministic(p1@, p2@, insts, cap);
                    },
                    _ => {},
                }
            }
        },
    }
}

} // verus!
