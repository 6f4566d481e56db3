//! Merging bounding boxes across visible batches, and deriving a camera
//! placement that frames the merged box.

use vstd::arithmetic::div_mod::{
    lemma_div_is_ordered, lemma_div_multiples_vanish, lemma_div_pos_is_pos,
};
use vstd::arithmetic::mul::{lemma_mul_nonnegative, lemma_mul_upper_bound};
use vstd::prelude::*;

use crate::block::{BlockCoordinates, SCALAR_LIMIT};
use crate::render::{
    batches_match, bbox_spec, int_max, max_i64, merge_boxes, min_i64, BoundingBox,
    CuboidInstance, InstanceBatch,
};

verus! {

/// The smallest box enclosing a non-empty sequence of boxes: the
/// componentwise minimum of their minimum corners and maximum of their
/// maximum corners.
pub open spec fn aggregate_spec(boxes: Seq<BoundingBox>) -> BoundingBox
    decreases boxes.len(),
{
    if boxes.len() == 0 {
        BoundingBox {
            minimum: BlockCoordinates { x: 0, y: 0, z: 0 },
            maximum: BlockCoordinates { x: 0, y: 0, z: 0 },
        }
    } else if boxes.len() == 1 {
        boxes[0]
    } else {
        merge_boxes(aggregate_spec(boxes.drop_last()), boxes.last())
    }
}

/// Merges the boxes of the currently visible batches into one box for
/// camera framing. An empty input yields no box at all — a distinguishable
/// no-content answer, not a degenerate box at the origin.
pub fn aggregate_bounds(boxes: &Vec<BoundingBox>) -> (r: Option<BoundingBox>)
    ensures
        r is None <==> boxes@.len() == 0,
        boxes@.len() > 0 ==> r == Some(aggregate_spec(boxes@)),
{
    if boxes.len() == 0 {
        return None;
    }
    let mut bb = boxes[0];
    let mut i: usize = 1;
    while i < boxes.len()
        invariant
            1 <= i <= boxes@.len(),
            bb == aggregate_spec(boxes@.take(i as int)),
        decreases boxes@.len() - i,
    {
        let b = boxes[i];
        bb = BoundingBox {
            minimum: BlockCoordinates {
                x: min_i64(bb.minimum.x, b.minimum.x),
                y: min_i64(bb.minimum.y, b.minimum.y),
                z: min_i64(bb.minimum.z, b.minimum.z),
            },
            maximum: BlockCoordinates {
                x: max_i64(bb.maximum.x, b.maximum.x),
                y: max_i64(bb.maximum.y, b.maximum.y),
                z: max_i64(bb.maximum.z, b.maximum.z),
            },
        };
        proof {
            let t = boxes@.take(i + 1);
            assert(t.drop_last() =~= boxes@.take(i as int));
            assert(t.last() == boxes@[i as int]);
        }
        i = i + 1;
    }
    proof {
        assert(boxes@.take(boxes@.len() as int) =~= boxes@);
    }
    Some(bb)
}

/// The box of a concatenation of two non-empty instance sequences is the
/// merge of the two boxes.
pub proof fn lemma_bbox_concat(s1: Seq<CuboidInstance>, s2: Seq<CuboidInstance>)
    requires
        s1.len() >= 1,
        s2.len() >= 1,
    ensures
        bbox_spec(s1 + s2) == merge_boxes(bbox_spec(s1), bbox_spec(s2)),
    decreases s2.len(),
{
    if s2.len() == 1 {
        assert((s1 + s2).drop_last() =~= s1);
        assert((s1 + s2).last() == s2[0]);
    } else {
        lemma_bbox_concat(s1, s2.drop_last());
        assert((s1 + s2).drop_last() =~= s1 + s2.drop_last());
        assert((s1 + s2).last() == s2.last());
    }
}

/// Aggregation law: merging the per-batch boxes of non-empty batches gives
/// exactly the box computed directly from the union (concatenation) of all
/// the instances in those batches.
pub proof fn lemma_aggregate_is_union_box(
    batches: Seq<Seq<CuboidInstance>>,
    boxes: Seq<BoundingBox>,
)
    requires
        batches.len() == boxes.len(),
        batches.len() >= 1,
        forall|j: int| 0 <= j < batches.len() ==> (#[trigger] batches[j]).len() >= 1,
        forall|j: int| 0 <= j < batches.len() ==> (#[trigger] boxes[j]) == bbox_spec(batches[j]),
    ensures
        aggregate_spec(boxes) == bbox_spec(batches.flatten()),
        batches.flatten().len() >= 1,
    decreases batches.len(),
{
    batches.lemma_flatten_and_flatten_alt_are_equivalent();
    if batches.len() == 1 {
        batches.lemma_flatten_one_element();
    } else {
        lemma_aggregate_is_union_box(batches.drop_last(), boxes.drop_last());
        batches.drop_last().lemma_flatten_and_flatten_alt_are_equivalent();
        assert(batches.flatten_alt() == batches.drop_last().flatten_alt() + batches.last());
        lemma_bbox_concat(batches.drop_last().flatten(), batches.last());
    }
}

/// Aggregation law for the batcher's own output: over the boxes emitted
/// with the sealed batches, the merged box equals the box computed
/// directly from all the instances those batches contain (the instance
/// stream up to the last sealed batch).
pub proof fn lemma_aggregate_batches(
    pairs: Seq<(InstanceBatch, BoundingBox)>,
    insts: Seq<CuboidInstance>,
    cap: int,
)
    requires
        cap >= 1,
        batches_match(pairs, insts, cap),
        pairs.len() >= 1,
    ensures
        aggregate_spec(pairs.map_values(|p: (InstanceBatch, BoundingBox)| p.1)) == bbox_spec(
            insts.subrange(0, pairs.len() * cap),
        ),
{
    let k = pairs.len() as int;
    let batches = batch_slices(insts, cap, k);
    let boxes = pairs.map_values(|p: (InstanceBatch, BoundingBox)| p.1);
    vstd::arithmetic::div_mod::lemma_fundamental_div_mod(insts.len() as int, cap);
    vstd::arithmetic::div_mod::lemma_mod_bound(insts.len() as int, cap);
    assert(cap * k <= insts.len());
    assert(k * cap == cap * k) by (nonlinear_arith);
    assert forall|j: int| 0 <= j < k implies (#[trigger] batches[j]).len() >= 1 by {
        assert(pairs[j].0.instances@ == insts.subrange(j * cap, (j + 1) * cap));
        assert(0 <= j * cap && j * cap + cap <= k * cap) by (nonlinear_arith)
            requires
                0 <= j < k,
                cap >= 1,
        ;
        assert((j + 1) * cap == j * cap + cap) by (nonlinear_arith);
        assert(batches[j] == insts.subrange(j * cap, (j + 1) * cap));
    }
    assert forall|j: int| 0 <= j < k implies (#[trigger] boxes[j]) == bbox_spec(batches[j]) by {
        assert(0 <= j * cap && j * cap + cap <= k * cap) by (nonlinear_arith)
            requires
                0 <= j < k,
                cap >= 1,
        ;
        assert((j + 1) * cap == j * cap + cap) by (nonlinear_arith);
        assert(pairs[j].1 == bbox_spec(insts.subrange(j * cap, (j + 1) * cap)));
    }
    lemma_aggregate_is_union_box(batches, boxes);
    lemma_flatten_slices(insts, cap, k);
}

/// The consecutive full slices of width `cap` covering the first
/// `k * cap` items of an instance stream.
pub open spec fn batch_slices(insts: Seq<CuboidInstance>, cap: int, k: int) -> Seq<
    Seq<CuboidInstance>,
> {
    Seq::new(k as nat, |j: int| insts.subrange(j * cap, (j + 1) * cap))
}

/// Flattening the consecutive full slices of width `cap` that cover the
/// first `k * cap` items gives back exactly that prefix.
proof fn lemma_flatten_slices(insts: Seq<CuboidInstance>, cap: int, k: int)
    requires
        cap >= 1,
        0 <= k,
        k * cap <= insts.len(),
    ensures
        batch_slices(insts, cap, k).flatten_alt() == insts.subrange(0, k * cap),
        batch_slices(insts, cap, k).flatten() == insts.subrange(0, k * cap),
    decreases k,
{
    let s = batch_slices(insts, cap, k);
    s.lemma_flatten_and_flatten_alt_are_equivalent();
    if k == 0 {
        assert(k * cap == 0) by (nonlinear_arith)
            requires
                k == 0,
        ;
        assert(s.flatten_alt() =~= insts.subrange(0, 0));
    } else {
        assert((k - 1) * cap == k * cap - cap) by (nonlinear_arith);
        lemma_mul_nonnegative(k - 1, cap);
        lemma_flatten_slices(insts, cap, k - 1);
        let prev = batch_slices(insts, cap, k - 1);
        assert(s.drop_last() =~= prev);
        assert(s.flatten_alt() == s.drop_last().flatten_alt() + s.last());
        assert(s.last() == insts.subrange((k - 1) * cap, k * cap));
        assert(insts.subrange(0, (k - 1) * cap) + insts.subrange((k - 1) * cap, k * cap)
            =~= insts.subrange(0, k * cap));
        assert(s.flatten_alt() =~= insts.subrange(0, k * cap));
    }
}

/// A camera placement framing a bounding box: where the camera stands,
/// what it looks at, and which way is up.
#[derive(Debug, PartialEq, Eq, Structural, Copy, Clone)]
pub struct CameraFrame {
    pub position: BlockCoordinates,
    pub target: BlockCoordinates,
    pub up: BlockCoordinates,
}

/// A corner within twice the fixed-point range: a maximum corner is a
/// coordinate plus a size, so the boxes the batcher emits reach that far.
pub open spec fn corner_in_span(c: BlockCoordinates) -> bool {
    &&& -2 * (SCALAR_LIMIT as int) <= c.x as int <= 2 * (SCALAR_LIMIT as int)
    &&& -2 * (SCALAR_LIMIT as int) <= c.y as int <= 2 * (SCALAR_LIMIT as int)
    &&& -2 * (SCALAR_LIMIT as int) <= c.z as int <= 2 * (SCALAR_LIMIT as int)
}

/// A box the camera can frame: corners within twice the fixed-point range
/// and ordered. A box built from rows with negative sizes has unordered
/// corners and is not frameable.
pub open spec fn box_wf(b: BoundingBox) -> bool {
    &&& corner_in_span(b.minimum)
    &&& corner_in_span(b.maximum)
    &&& b.minimum.x <= b.maximum.x
    &&& b.minimum.y <= b.maximum.y
    &&& b.minimum.z <= b.maximum.z
}

/// Decides whether a box can be framed: the checked path from a batch's
/// emitted box to `frame_camera`.
pub fn box_frameable(b: &BoundingBox) -> (r: bool)
    ensures
        r == box_wf(*b),
{
    let span = 2 * SCALAR_LIMIT;
    -span <= b.minimum.x && b.minimum.x <= span && -span <= b.minimum.y && b.minimum.y <= span
        && -span <= b.minimum.z && b.minimum.z <= span && -span <= b.maximum.x && b.maximum.x
        <= span && -span <= b.maximum.y && b.maximum.y <= span && -span <= b.maximum.z
        && b.maximum.z <= span && b.minimum.x <= b.maximum.x && b.minimum.y <= b.maximum.y
        && b.minimum.z <= b.maximum.z
}

/// The center of a box, rounding each component down.
pub open spec fn box_center(b: BoundingBox) -> BlockCoordinates {
    BlockCoordinates {
        x: (b.minimum.x + (b.maximum.x - b.minimum.x) / 2) as i64,
        y: (b.minimum.y + (b.maximum.y - b.minimum.y) / 2) as i64,
        z: (b.minimum.z + (b.maximum.z - b.minimum.z) / 2) as i64,
    }
}

/// The largest of the box's half-extents.
pub open spec fn largest_half_extent(b: BoundingBox) -> int {
    int_max(
        int_max((b.maximum.x - b.minimum.x) / 2, (b.maximum.y - b.minimum.y) / 2),
        (b.maximum.z - b.minimum.z) / 2,
    )
}

/// The camera's distance from the box center: the largest half-extent
/// divided by the tangent `tan_num / tan_den` of half the field of view.
pub open spec fn camera_distance(b: BoundingBox, tan_num: int, tan_den: int) -> int {
    largest_half_extent(b) * tan_den / tan_num
}

/// The camera placement for a box: positioned along the fixed view axis
/// (the z axis) at the framing distance from the center, looking at the
/// center, with the y axis up.
pub open spec fn frame_spec(b: BoundingBox, tan_num: int, tan_den: int) -> CameraFrame {
    let c = box_center(b);
    CameraFrame {
        position: BlockCoordinates {
            x: c.x,
            y: c.y,
            z: (c.z + camera_distance(b, tan_num, tan_den)) as i64,
        },
        target: c,
        up: BlockCoordinates { x: 0, y: 1, z: 0 },
    }
}

/// Derives the camera placement that frames a box, for a field of view
/// whose half-angle has tangent `tan_num / tan_den`. The tangent must be
/// at least one thousandth so that the distance stays representable.
pub fn frame_camera(b: &BoundingBox, tan_num: i64, tan_den: i64) -> (r: CameraFrame)
    requires
        box_wf(*b),
        1 <= tan_num <= SCALAR_LIMIT,
        1 <= tan_den <= 1000 * tan_num,
    ensures
        r == frame_spec(*b, tan_num as int, tan_den as int),
{
    let cx = b.minimum.x + (b.maximum.x - b.minimum.x) / 2;
    let cy = b.minimum.y + (b.maximum.y - b.minimum.y) / 2;
    let cz = b.minimum.z + (b.maximum.z - b.minimum.z) / 2;
    let hx = (b.maximum.x - b.minimum.x) / 2;
    let hy = (b.maximum.y - b.minimum.y) / 2;
    let hz = (b.maximum.z - b.minimum.z) / 2;
    let half = max_i64(max_i64(hx, hy), hz);
    proof {
        lemma_div_pos_is_pos(b.maximum.x as int - b.minimum.x as int, 2);
        lemma_div_pos_is_pos(b.maximum.y as int - b.minimum.y as int, 2);
        lemma_div_pos_is_pos(b.maximum.z as int - b.minimum.z as int, 2);
        lemma_div_is_ordered(b.maximum.x as int - b.minimum.x as int, 4 * SCALAR_LIMIT as int, 2);
        lemma_div_is_ordered(b.maximum.y as int - b.minimum.y as int, 4 * SCALAR_LIMIT as int, 2);
        lemma_div_is_ordered(b.maximum.z as int - b.minimum.z as int, 4 * SCALAR_LIMIT as int, 2);
        lemma_mul_nonnegative(half as int, tan_den as int);
        lemma_mul_upper_bound(
            half as int,
            2 * SCALAR_LIMIT as int,
            tan_den as int,
            1000 * SCALAR_LIMIT as int,
        );
    }
    let dist_wide = half as i128 * tan_den as i128 / tan_num as i128;
    proof {
        lemma_div_pos_is_pos(half as int * tan_den as int, tan_num as int);
        assert(half as int * tan_den as int <= tan_num as int * (1000 * half as int))
            by (nonlinear_arith)
            requires
                tan_den as int <= 1000 * tan_num as int,
                0 <= half as int,
        ;
        lemma_div_is_ordered(
            half as int * tan_den as int,
            tan_num as int * (1000 * half as int),
            tan_num as int,
        );
        lemma_div_multiples_vanish(1000 * half as int, tan_num as int);
        assert(1000 * half as int <= 2000 * SCALAR_LIMIT as int);
    }
    let dist = dist_wide as i64;
    CameraFrame {
        position: BlockCoordinates { x: cx, y: cy, z: cz + dist },
        target: BlockCoordinates { x: cx, y: cy, z: cz },
        up: BlockCoordinates { x: 0, y: 1, z: 0 },
    }
}

} // verus!
