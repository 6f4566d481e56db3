//! The row-oriented view of one block-model cell: its grid index, its
//! minimum-corner position, its extents, and its named attribute values.

use vstd::prelude::*;

verus! {

/// Bound on every fixed-point measure the library accepts. Keeping all
/// coordinates, sizes, attribute values and gradient positions within
/// `[-SCALAR_LIMIT, SCALAR_LIMIT]` lets corner sums stay inside `i64` and
/// gradient interpolation products stay inside `i128`.
pub const SCALAR_LIMIT: i64 = 1_000_000_000_000_000;

/// A fixed-point measure is in range for the pipeline's exact arithmetic.
pub open spec fn scalar_in_range(v: int) -> bool {
    -(SCALAR_LIMIT as int) <= v <= SCALAR_LIMIT as int
}

/// World-space position of a block's minimum corner, in fixed-point units.
#[derive(Debug, PartialEq, Eq, Structural, Copy, Clone)]
pub struct BlockCoordinates {
    pub x: i64,
    pub y: i64,
    pub z: i64,
}

/// Logical grid position (i, j, k) of a cell; ordered lexicographically.
#[derive(Debug, PartialEq, Eq, Structural, Copy, Clone, Hash, PartialOrd, Ord)]
pub struct BlockIndex {
    pub i: usize,
    pub j: usize,
    pub k: usize,
}

impl BlockIndex {
    /// Lexicographic order on (i, j, k): the order in which cells of a grid
    /// are iterated deterministically.
    pub open spec fn lex_le(self, other: BlockIndex) -> bool {
        self.i < other.i
            || (self.i == other.i && self.j < other.j)
            || (self.i == other.i && self.j == other.j && self.k <= other.k)
    }

    /// Decides the lexicographic order on indices.
    pub fn le(&self, other: &BlockIndex) -> (r: bool)
        ensures
            r == self.lex_le(*other),
    {
        self.i < other.i
            || (self.i == other.i && self.j < other.j)
            || (self.i == other.i && self.j == other.j && self.k <= other.k)
    }
}

impl Default for BlockIndex {
    /// The default index is the grid origin (0, 0, 0).
    fn default() -> (r: Self)
        ensures
            r.i == 0 && r.j == 0 && r.k == 0,
    {
        BlockIndex { i: 0, j: 0, k: 0 }
    }
}

/// Extents of a block along each axis, in fixed-point units. Zero-size
/// blocks are degenerate but accepted; validation is the caller's concern.
#[derive(Debug, PartialEq, Eq, Structural, Copy, Clone)]
pub struct BlockSize {
    pub x_size: i64,
    pub y_size: i64,
    pub z_size: i64,
}

/// One per-block attribute value: a fixed-point measure, an integer count,
/// or a text label.
#[derive(Debug, Clone, PartialEq)]
pub enum BlockAttributes {
    Number(i64),
    Integer(i32),
    Label(String),
}

/// Access to a cell's geometry and identity, for any record shape that can
/// stand for a block. The spec methods name what the accessors return, and
/// the index setter leaves the record otherwise untouched.
pub trait BlockInterface: Sized {
    /// The record's position, as the accessors' specification value.
    spec fn spec_coordinates(&self) -> BlockCoordinates;

    /// The record's extents, as the accessors' specification value.
    spec fn spec_size(&self) -> BlockSize;

    /// The record's grid index, as the accessors' specification value.
    spec fn spec_index(&self) -> BlockIndex;

    /// The record with its index replaced and everything else unchanged.
    spec fn spec_with_index(&self, ind: BlockIndex) -> Self;

    fn coordinates(&self) -> (r: BlockCoordinates)
        ensures
            r == self.spec_coordinates(),
    ;

    fn size(&self) -> (r: BlockSize)
        ensures
            r == self.spec_size(),
    ;

    fn index(&self) -> (r: BlockIndex)
        ensures
            r == self.spec_index(),
    ;

    fn set_index(&mut self, ind: BlockIndex)
        ensures
            *final(self) == old(self).spec_with_index(ind),
            final(self).spec_index() == ind,
            final(self).spec_coordinates() == old(self).spec_coordinates(),
            final(self).spec_size() == old(self).spec_size(),
    ;
}

/// One cell of a block model: index, minimum corner, extents, and a mapping
/// from attribute name to value (names are unique per block).
#[derive(Debug, Clone, PartialEq)]
pub struct Block {
    pub ind: BlockIndex,
    pub coords: BlockCoordinates,
    pub size: BlockSize,
    pub attributes: Vec<(String, BlockAttributes)>,
}

impl Block {
    /// The attribute names of this block are pairwise distinct.
    pub open spec fn names_unique(self) -> bool {
        forall|p: int, q: int|
            0 <= p < q < self.attributes@.len() ==> self.attributes@[p].0@
                != self.attributes@[q].0@
    }

    pub fn new(
        ind: BlockIndex,
        coords: BlockCoordinates,
        size: BlockSize,
        attributes: Vec<(String, BlockAttributes)>,
    ) -> (r: Self)
        ensures
            r.ind == ind,
            r.coords == coords,
            r.size == size,
            r.attributes == attributes,
    {
        Block { ind, coords, size, attributes }
    }
}

impl BlockInterface for Block {
    open spec fn spec_coordinates(&self) -> BlockCoordinates {
        self.coords
    }

    open spec fn spec_size(&self) -> BlockSize {
        self.size
    }

    open spec fn spec_index(&self) -> BlockIndex {
        self.ind
    }

    open spec fn spec_with_index(&self, ind: BlockIndex) -> Block {
        Block { ind: ind, coords: self.coords, size: self.size, attributes: self.attributes }
    }

    fn coordinates(&self) -> BlockCoordinates {
        self.coords
    }

    fn size(&self) -> BlockSize {
        self.size
    }

    fn index(&self) -> BlockIndex {
        self.ind
    }

    fn set_index(&mut self, ind: BlockIndex) {
        self.ind = ind;
    }
}

} // verus!
