//! Colored cuboid instances and their packing into fixed-capacity batches,
//! each batch paired with the axis-aligned bounding box of its instances.

use vstd::arithmetic::div_mod::{lemma_fundamental_div_mod, lemma_fundamental_div_mod_converse};
use vstd::prelude::*;

use crate::block::BlockCoordinates;
use crate::gradient::Rgb;

verus! {

/// One renderable cuboid: minimum corner, maximum corner, packed color.
#[derive(Debug, PartialEq, Eq, Structural, Copy, Clone)]
pub struct CuboidInstance {
    pub minimum: BlockCoordinates,
    pub maximum: BlockCoordinates,
    pub color: u32,
}

/// An ordered group of instances packed together for instanced rendering.
#[derive(Debug, Clone, PartialEq)]
pub struct InstanceBatch {
    pub instances: Vec<CuboidInstance>,
}

/// An axis-aligned bounding box: minimum and maximum corner.
#[derive(Debug, PartialEq, Eq, Structural, Copy, Clone)]
pub struct BoundingBox {
    pub minimum: BlockCoordinates,
    pub maximum: BlockCoordinates,
}

/// A color packed into 32 bits as red, green, blue and a full alpha
/// channel, in byte order from the lowest byte up.
pub open spec fn pack_rgba_spec(c: Rgb) -> u32 {
    (c.r as int + c.g as int * 256 + c.b as int * 65536 + 255 * 16777216) as u32
}

/// Packs a color for the instance stream.
pub fn pack_rgba(c: Rgb) -> (r: u32)
    ensures
        r == pack_rgba_spec(c),
{
    c.r as u32 + (c.g as u32) * 256 + (c.b as u32) * 65536 + 255u32 * 16777216
}

/// The smaller of two mathematical integers.
pub open spec fn int_min(a: int, b: int) -> int {
    if a <= b {
        a
    } else {
        b
    }
}

/// The larger of two mathematical integers.
pub open spec fn int_max(a: int, b: int) -> int {
    if a >= b {
        a
    } else {
        b
    }
}

/// Componentwise minimum of two corners.
pub open spec fn coords_min(a: BlockCoordinates, b: BlockCoordinates) -> BlockCoordinates {
    BlockCoordinates {
        x: int_min(a.x as int, b.x as int) as i64,
        y: int_min(a.y as int, b.y as int) as i64,
        z: int_min(a.z as int, b.z as int) as i64,
    }
}

/// Componentwise maximum of two corners.
pub open spec fn coords_max(a: BlockCoordinates, b: BlockCoordinates) -> BlockCoordinates {
    BlockCoordinates {
        x: int_max(a.x as int, b.x as int) as i64,
        y: int_max(a.y as int, b.y as int) as i64,
        z: int_max(a.z as int, b.z as int) as i64,
    }
}

/// The box of one instance.
pub open spec fn box_of(inst: CuboidInstance) -> BoundingBox {
    BoundingBox { minimum: inst.minimum, maximum: inst.maximum }
}

/// The smallest box enclosing two boxes.
pub open spec fn merge_boxes(a: BoundingBox, b: BoundingBox) -> BoundingBox {
    BoundingBox {
        minimum: coords_min(a.minimum, b.minimum),
        maximum: coords_max(a.maximum, b.maximum),
    }
}

/// The box enclosing a non-empty sequence of instances: the componentwise
/// minimum of their minimum corners and maximum of their maximum corners.
pub open spec fn bbox_spec(s: Seq<CuboidInstance>) -> BoundingBox
    decreases s.len(),
{
    if s.len() == 0 {
        BoundingBox {
            minimum: BlockCoordinates { x: 0, y: 0, z: 0 },
            maximum: BlockCoordinates { x: 0, y: 0, z: 0 },
        }
    } else if s.len() == 1 {
        box_of(s[0])
    } else {
        merge_boxes(bbox_spec(s.drop_last()), box_of(s.last()))
    }
}

/// The smaller of two fixed-point values.
pub fn min_i64(a: i64, b: i64) -> (r: i64)
    ensures
        r as int == int_min(a as int, b as int),
{
    if a <= b {
        a
    } else {
        b
    }
}

/// The larger of two fixed-point values.
pub fn max_i64(a: i64, b: i64) -> (r: i64)
    ensures
        r as int == int_max(a as int, b as int),
{
    if a >= b {
        a
    } else {
        b
    }
}

/// The bounding box of a non-empty group of instances.
pub fn batch_bounds(instances: &Vec<CuboidInstance>) -> (bb: BoundingBox)
    requires
        instances@.len() >= 1,
    ensures
        bb == bbox_spec(instances@),
{
    let first = instances[0];
    let mut bb = BoundingBox { minimum: first.minimum, maximum: first.maximum };
    let mut i: usize = 1;
    proof {
        assert(instances@.take(1).len() == 1);
        assert(instances@.take(1)[0] == instances@[0]);
    }
    while i < instances.len()
        invariant
            1 <= i <= instances@.len(),
            bb == bbox_spec(instances@.take(i as int)),
        decreases instances@.len() - i,
    {
        let inst = instances[i];
        bb = BoundingBox {
            minimum: BlockCoordinates {
                x: min_i64(bb.minimum.x, inst.minimum.x),
                y: min_i64(bb.minimum.y, inst.minimum.y),
                z: min_i64(bb.minimum.z, inst.minimum.z),
            },
            maximum: BlockCoordinates {
                x: max_i64(bb.maximum.x, inst.maximum.x),
                y: max_i64(bb.maximum.y, inst.maximum.y),
                z: max_i64(bb.maximum.z, inst.maximum.z),
            },
        };
        proof {
            let t = instances@.take(i + 1);
            assert(t.drop_last() =~= instances@.take(i as int));
            assert(t.last() == instances@[i as int]);
        }
        i = i + 1;
    }
    proof {
        assert(instances@.take(instances@.len() as int) =~= instances@);
    }
    bb
}

/// The batches and boxes that fixed-capacity partitioning assigns to an
/// instance stream: consecutive full slices of `cap` instances in stream
/// order, each paired with its bounding box; the trailing instances that
/// do not fill a batch are not emitted.
pub open spec fn batches_match(
    pairs: Seq<(InstanceBatch, BoundingBox)>,
    insts: Seq<CuboidInstance>,
    cap: int,
) -> bool {
    &&& pairs.len() == insts.len() as int / cap
    &&& forall|j: int|
        0 <= j < pairs.len() ==> (#[trigger] pairs[j]).0.instances@ == insts.subrange(
            j * cap,
            (j + 1) * cap,
        )
    &&& forall|j: int|
        0 <= j < pairs.len() ==> (#[trigger] pairs[j]).1 == bbox_spec(
            insts.subrange(j * cap, (j + 1) * cap),
        )
}

/// Partitions an instance stream into sealed batches of exactly
/// `capacity` instances, in stream order, each with its bounding box;
/// trailing instances short of the capacity are dropped.
pub fn partition_batches(instances: &Vec<CuboidInstance>, capacity: usize) -> (out: Vec<
    (InstanceBatch, BoundingBox),
>)
    requires
        capacity >= 1,
    ensures
        batches_match(out@, instances@, capacity as int),
{
    let n = instances.len();
    let mut out: Vec<(InstanceBatch, BoundingBox)> = Vec::new();
    let mut start: usize = 0;
    proof {
        assert(out@.len() * capacity as int == 0) by (nonlinear_arith)
            requires
                out@.len() == 0,
        ;
    }
    while n - start >= capacity
        invariant
            capacity >= 1,
            start <= n,
            n == instances@.len(),
            start == out@.len() * capacity,
            forall|j: int|
                0 <= j < out@.len() ==> (#[trigger] out@[j]).0.instances@ == instances@.subrange(
                    j * capacity,
                    (j + 1) * capacity,
                ),
            forall|j: int|
                0 <= j < out@.len() ==> (#[trigger] out@[j]).1 == bbox_spec(
                    instances@.subrange(j * capacity, (j + 1) * capacity),
                ),
        decreases n - start,
    {
        let mut batch: Vec<CuboidInstance> = Vec::new();
        let mut k: usize = 0;
        while k < capacity
            invariant
                k <= capacity,
                start + capacity <= n,
                n == instances@.len(),
                batch@ == instances@.subrange(start as int, start as int + k),
            decreases capacity - k,
        {
            batch.push(instances[start + k]);
            proof {
                assert(batch@ =~= instances@.subrange(start as int, start as int + k + 1));
            }
            k = k + 1;
        }
        let bb = batch_bounds(&batch);
        let ghost j = out@.len() as int;
        out.push((InstanceBatch { instances: batch }, bb));
        proof {
            assert(j * capacity + capacity == (j + 1) * capacity) by (nonlinear_arith);
            assert(instances@.subrange(start as int, start as int + capacity)
                == instances@.subrange(j * capacity, (j + 1) * capacity));
        }
        start = start + capacity;
    }
    proof {
        lemma_fundamental_div_mod_converse(
            n as int,
            capacity as int,
            out@.len() as int,
            n as int - start as int,
        );
    }
    out
}

/// Batching idempotence law: any two batch sequences that partition the
/// same instance stream at the same capacity agree — same number of
/// batches, same instances batch for batch, same box batch for batch.
pub proof fn lemma_batching_deterministic(
    p1: Seq<(InstanceBatch, BoundingBox)>,
    p2: Seq<(InstanceBatch, BoundingBox)>,
    insts: Seq<CuboidInstance>,
    cap: int,
)
    requires
        cap >= 1,
        batches_match(p1, insts, cap),
        batches_match(p2, insts, cap),
    ensures
        p1.len() == p2.len(),
        forall|j: int|
            0 <= j < p1.len() ==> (#[trigger] p1[j]).0.instances@ == p2[j].0.instances@,
        forall|j: int| 0 <= j < p1.len() ==> (#[trigger] p1[j]).1 == p2[j].1,
{
}

/// Capacity law: partitioning N instances at capacity C seals exactly
/// ⌊N / C⌋ batches, and every sealed batch holds exactly C instances.
pub proof fn lemma_capacity_law(
    pairs: Seq<(InstanceBatch, BoundingBox)>,
    insts: Seq<CuboidInstance>,
    cap: int,
)
    requires
        cap >= 1,
        batches_match(pairs, insts, cap),
    ensures
        pairs.len() == insts.len() as int / cap,
        forall|j: int| 0 <= j < pairs.len() ==> (#[trigger] pairs[j]).0.instances@.len() == cap,
{
    let k = pairs.len() as int;
    vstd::arithmetic::div_mod::lemma_fundamental_div_mod(insts.len() as int, cap);
    vstd::arithmetic::div_mod::lemma_mod_bound(insts.len() as int, cap);
    assert(cap * k <= insts.len());
    assert(k * cap == cap * k) by (nonlinear_arith);
    assert forall|j: int|
        0 <= j < pairs.len() implies (#[trigger] pairs[j]).0.instances@.len() == cap by {
        assert(0 <= j * cap && j * cap + cap <= k * cap) by (nonlinear_arith)
            requires
                0 <= j < k,
                cap >= 1,
        ;
        assert((j + 1) * cap == j * cap + cap) by (nonlinear_arith);
        assert(pairs[j].0.instances@ == insts.subrange(j * cap, (j + 1) * cap));
    }
}

/// The batches and boxes of the partitioning that also emits the trailing
/// instances: the sealed full batches in stream order, followed — when the
/// stream length is not a multiple of the capacity — by one short batch
/// holding the remaining instances, with its box.
pub open spec fn batches_match_with_trailing(
    pairs: Seq<(InstanceBatch, BoundingBox)>,
    insts: Seq<CuboidInstance>,
    cap: int,
) -> bool {
    let k = insts.len() as int / cap;
    &&& insts.len() as int % cap == 0 ==> batches_match(pairs, insts, cap)
    &&& insts.len() as int % cap != 0 ==> {
        &&& pairs.len() == k + 1
        &&& forall|j: int|
            0 <= j < k ==> (#[trigger] pairs[j]).0.instances@ == insts.subrange(
                j * cap,
                (j + 1) * cap,
            )
        &&& forall|j: int|
            0 <= j < k ==> (#[trigger] pairs[j]).1 == bbox_spec(
                insts.subrange(j * cap, (j + 1) * cap),
            )
        &&& pairs[k].0.instances@ == insts.subrange(k * cap, insts.len() as int)
        &&& pairs[k].1 == bbox_spec(insts.subrange(k * cap, insts.len() as int))
    }
}

/// Partitions an instance stream into batches of exactly `capacity`
/// instances and, when instances remain past the last full batch, one
/// final short batch holding them: the configuration that keeps the
/// trailing instances instead of dropping them.
pub fn partition_batches_with_trailing(
    instances: &Vec<CuboidInstance>,
    capacity: usize,
) -> (out: Vec<(InstanceBatch, BoundingBox)>)
    requires
        capacity >= 1,
    ensures
        batches_match_with_trailing(out@, instances@, capacity as int),
{
    let mut out = partition_batches(instances, capacity);
    let n = instances.len();
    proof {
        lemma_fundamental_div_mod(n as int, capacity as int);
        vstd::arithmetic::div_mod::lemma_mod_bound(n as int, capacity as int);
        assert(out@.len() * capacity as int == capacity as int * out@.len())
            by (nonlinear_arith);
    }
    let start = out.len() * capacity;
    if start < n {
        let mut batch: Vec<CuboidInstance> = Vec::new();
        let mut k: usize = start;
        while k < n
            invariant
                start <= k <= n,
                n == instances@.len(),
                batch@ == instances@.subrange(start as int, k as int),
            decreases n - k,
        {
            batch.push(instances[k]);
            proof {
                assert(batch@ =~= instances@.subrange(start as int, k + 1));
            }
            k = k + 1;
        }
        let bb = batch_bounds(&batch);
        let ghost sealed = out@;
        out.push((InstanceBatch { instances: batch }, bb));
        proof {
            assert(forall|j: int| 0 <= j < sealed.len() ==> #[trigger] out@[j] == sealed[j]);
        }
    }
    out
}

} // verus!
