//! Piecewise-linear color gradients over a fixed-point domain.
//!
//! A gradient is a strictly increasing sequence of color stops. Sampling at
//! a position clamps to the first and last stop and interpolates each color
//! channel linearly inside a segment, with exact integer arithmetic. An
//! attribute value is colored by mapping it linearly from the attribute
//! domain `[lo, hi]` onto the gradient's own domain; a collapsed attribute
//! domain (`lo == hi`) maps every value to the gradient's domain minimum.

use vstd::arithmetic::div_mod::{
    lemma_div_is_ordered, lemma_div_multiples_vanish, lemma_div_pos_is_pos,
};
use vstd::arithmetic::mul::{lemma_mul_inequality, lemma_mul_nonnegative, lemma_mul_upper_bound};
use vstd::prelude::*;

use crate::block::{scalar_in_range, SCALAR_LIMIT};

verus! {

/// One color, as 8-bit red, green and blue channels.
#[derive(Debug, PartialEq, Eq, Structural, Copy, Clone)]
pub struct Rgb {
    pub r: u8,
    pub g: u8,
    pub b: u8,
}

/// One gradient stop: a fixed-point position and the color reached there.
#[derive(Debug, PartialEq, Eq, Structural, Copy, Clone)]
pub struct GradientStop {
    pub position: i64,
    pub color: Rgb,
}

/// A continuous, deterministic, total map from a fixed-point domain to
/// colors, given by linear interpolation between stops.
#[derive(Debug, Clone, PartialEq)]
pub struct Gradient {
    pub stops: Vec<GradientStop>,
}

/// Linear interpolation of one channel from `c0` toward `c1`, `num/den` of
/// the way, rounding the interpolated channel down.
pub open spec fn channel_lerp(c0: u8, c1: u8, num: int, den: int) -> u8 {
    if c1 >= c0 {
        (c0 + num * (c1 - c0) / den) as u8
    } else {
        (c0 - num * (c0 - c1) / den) as u8
    }
}

/// Interpolated color inside the segment from stop `a` to stop `b`.
pub open spec fn segment_lerp(a: GradientStop, b: GradientStop, pos: int) -> Rgb {
    let num = pos - a.position;
    let den = b.position - a.position;
    Rgb {
        r: channel_lerp(a.color.r, b.color.r, num, den),
        g: channel_lerp(a.color.g, b.color.g, num, den),
        b: channel_lerp(a.color.b, b.color.b, num, den),
    }
}

/// The color of a stop sequence at `pos`: clamped to the outermost stops,
/// interpolated inside the segment that contains `pos`.
pub open spec fn sample_spec(stops: Seq<GradientStop>, pos: int) -> Rgb
    decreases stops.len(),
{
    if stops.len() == 0 {
        Rgb { r: 0, g: 0, b: 0 }
    } else if stops.len() == 1 {
        stops[0].color
    } else if pos < stops[0].position {
        stops[0].color
    } else if pos < stops[1].position {
        segment_lerp(stops[0], stops[1], pos)
    } else {
        sample_spec(stops.drop_first(), pos)
    }
}

/// Where value `v` of the attribute domain `[lo, hi]` lands on the gradient
/// domain `[dmin, dmax]`; a collapsed attribute domain lands on `dmin`.
pub open spec fn grad_position(dmin: int, dmax: int, v: int, lo: int, hi: int) -> int {
    if lo == hi {
        dmin
    } else {
        dmin + (v - lo) * (dmax - dmin) / (hi - lo)
    }
}

/// The color a stop sequence assigns to attribute value `v` drawn from the
/// domain `[lo, hi]`.
pub open spec fn color_at_spec(stops: Seq<GradientStop>, v: int, lo: int, hi: int) -> Rgb {
    sample_spec(
        stops,
        grad_position(
            stops[0].position as int,
            stops[stops.len() - 1].position as int,
            v,
            lo,
            hi,
        ),
    )
}

/// Well-formed stop sequences: at least one stop, strictly increasing
/// positions, all positions within the fixed-point range.
pub open spec fn stops_wf(stops: Seq<GradientStop>) -> bool {
    &&& stops.len() >= 1
    &&& forall|i: int|
        0 <= i && i + 1 < stops.len() ==> #[trigger] stops[i].position < stops[i + 1].position
    &&& forall|i: int| 0 <= i < stops.len() ==> scalar_in_range(#[trigger] stops[i].position as int)
}

/// Stop positions grow with the stop index.
pub proof fn lemma_positions_increase(stops: Seq<GradientStop>, i: int, j: int)
    requires
        stops_wf(stops),
        0 <= i <= j < stops.len(),
    ensures
        stops[i].position <= stops[j].position,
    decreases j - i,
{
    if i < j {
        lemma_positions_increase(stops, i + 1, j);
    }
}

/// At or below the first stop, sampling yields the first stop's color.
pub proof fn lemma_sample_low(stops: Seq<GradientStop>, pos: int)
    requires
        stops_wf(stops),
        pos <= stops[0].position,
    ensures
        sample_spec(stops, pos) == stops[0].color,
{
    if stops.len() >= 2 && pos == stops[0].position {
        let a = stops[0];
        let b = stops[1];
        let den = b.position - a.position;
        lemma_div_multiples_vanish(0, den);
        assert(den * 0 == 0);
        assert(0int / den == 0);
        assert(channel_lerp(a.color.r, b.color.r, 0, den) == a.color.r);
        assert(channel_lerp(a.color.g, b.color.g, 0, den) == a.color.g);
        assert(channel_lerp(a.color.b, b.color.b, 0, den) == a.color.b);
    }
}

/// At or above the last stop, sampling yields the last stop's color.
pub proof fn lemma_sample_high(stops: Seq<GradientStop>, pos: int)
    requires
        stops_wf(stops),
        pos >= stops[stops.len() - 1].position,
    ensures
        sample_spec(stops, pos) == stops[stops.len() - 1].color,
    decreases stops.len(),
{
    if stops.len() >= 2 {
        lemma_positions_increase(stops, 1, stops.len() - 1);
        assert(stops.drop_first() =~= stops.subrange(1, stops.len() as int));
        lemma_sample_high(stops.drop_first(), pos);
    }
}

/// Inside the segment `[stops[i].position, stops[i+1].position)`, sampling
/// interpolates that segment.
pub proof fn lemma_sample_in_segment(stops: Seq<GradientStop>, pos: int, i: int)
    requires
        stops_wf(stops),
        0 <= i,
        i + 1 < stops.len(),
        stops[i].position <= pos < stops[i + 1].position,
    ensures
        sample_spec(stops, pos) == segment_lerp(stops[i], stops[i + 1], pos),
    decreases i,
{
    if i == 0 {
        lemma_positions_increase(stops, 0, 0);
    } else {
        lemma_positions_increase(stops, 1, i);
        lemma_sample_in_segment(stops.drop_first(), pos, i - 1);
    }
}

impl Gradient {
    /// A gradient value is well-formed when its stops are.
    pub open spec fn wf(&self) -> bool {
        stops_wf(self.stops@)
    }

    /// The position of the first stop: the minimum of the gradient domain.
    pub open spec fn spec_domain_min(&self) -> int {
        self.stops@[0].position as int
    }

    /// The position of the last stop: the maximum of the gradient domain.
    pub open spec fn spec_domain_max(&self) -> int {
        self.stops@[self.stops@.len() - 1].position as int
    }

    /// Builds a gradient from stops, accepting exactly the well-formed stop
    /// sequences.
    pub fn new(stops: Vec<GradientStop>) -> (r: Option<Gradient>)
        ensures
            r matches Some(g) ==> g.stops@ == stops@ && g.wf(),
            r is Some <==> stops_wf(stops@),
    {
        if stops.len() == 0 {
            return None;
        }
        let mut i: usize = 0;
        while i < stops.len()
            invariant
                i <= stops@.len(),
                forall|k: int|
                    0 <= k < i && k + 1 < stops@.len() ==> #[trigger] stops@[k].position
                        < stops@[k + 1].position,
                forall|k: int|
                    0 <= k < i ==> scalar_in_range(#[trigger] stops@[k].position as int),
            decreases stops@.len() - i,
        {
            let p = stops[i].position;
            if p < -SCALAR_LIMIT || p > SCALAR_LIMIT {
                return None;
            }
            if i + 1 < stops.len() && stops[i + 1].position <= p {
                return None;
            }
            i = i + 1;
        }
        Some(Gradient { stops })
    }

    /// The gradient's domain, as (minimum position, maximum position).
    pub fn domain(&self) -> (r: (i64, i64))
        requires
            self.wf(),
        ensures
            r.0 as int == self.spec_domain_min(),
            r.1 as int == self.spec_domain_max(),
    {
        (self.stops[0].position, self.stops[self.stops.len() - 1].position)
    }

    /// Samples the gradient at a fixed-point position.
    pub fn sample(&self, pos: i64) -> (c: Rgb)
        requires
            self.wf(),
        ensures
            c == sample_spec(self.stops@, pos as int),
    {
        let n = self.stops.len();
        if pos <= self.stops[0].position {
            proof {
                lemma_sample_low(self.stops@, pos as int);
            }
            return self.stops[0].color;
        }
        let mut i: usize = 0;
        while i + 1 < n && self.stops[i + 1].position <= pos
            invariant
                self.wf(),
                n == self.stops@.len(),
                i < n,
                self.stops@[i as int].position <= pos as int,
            decreases n - i,
        {
            i = i + 1;
        }
        if i + 1 == n {
            proof {
                lemma_sample_high(self.stops@, pos as int);
            }
            return self.stops[i].color;
        }
        let a = self.stops[i];
        let b = self.stops[i + 1];
        proof {
            lemma_sample_in_segment(self.stops@, pos as int, i as int);
        }
        let num = pos - a.position;
        let den = b.position - a.position;
        Rgb {
            r: lerp_channel(a.color.r, b.color.r, num, den),
            g: lerp_channel(a.color.g, b.color.g, num, den),
            b: lerp_channel(a.color.b, b.color.b, num, den),
        }
    }

    /// The color for attribute value `v` of the domain `[lo, hi]`: the value
    /// is mapped linearly onto the gradient domain and sampled; a constant
    /// domain maps every value to the gradient's domain minimum.
    pub fn color_for(&self, v: i64, lo: i64, hi: i64) -> (c: Rgb)
        requires
            self.wf(),
            lo <= v <= hi,
            scalar_in_range(lo as int),
            scalar_in_range(hi as int),
        ensures
            c == color_at_spec(self.stops@, v as int, lo as int, hi as int),
    {
        let dmin = self.stops[0].position;
        let dmax = self.stops[self.stops.len() - 1].position;
        if lo == hi {
            return self.sample(dmin);
        }
        proof {
            lemma_positions_increase(self.stops@, 0, self.stops@.len() - 1);
        }
        proof {
            lemma_mul_nonnegative(v as int - lo as int, dmax as int - dmin as int);
            lemma_mul_upper_bound(
                v as int - lo as int,
                2 * SCALAR_LIMIT as int,
                dmax as int - dmin as int,
                2 * SCALAR_LIMIT as int,
            );
        }
        let num = (v as i128 - lo as i128) * (dmax as i128 - dmin as i128);
        let den = hi as i128 - lo as i128;
        let q = num / den;
        proof {
            lemma_div_pos_is_pos(num as int, den as int);
            lemma_mul_inequality(v as int - lo as int, hi as int - lo as int, dmax as int
                - dmin as int);
            lemma_div_is_ordered(num as int, (hi as int - lo as int) * (dmax as int
                - dmin as int), den as int);
            lemma_div_multiples_vanish(dmax as int - dmin as int, den as int);
        }
        let p = (dmin as i128 + q) as i64;
        self.sample(p)
    }
}

/// Executable channel interpolation, exact over `i64`.
fn lerp_channel(c0: u8, c1: u8, num: i64, den: i64) -> (c: u8)
    requires
        0 <= num <= den,
        1 <= den <= 2 * SCALAR_LIMIT,
    ensures
        c == channel_lerp(c0, c1, num as int, den as int),
{
    if c1 >= c0 {
        let diff = (c1 - c0) as i64;
        proof {
            lemma_mul_nonnegative(num as int, diff as int);
            lemma_mul_upper_bound(num as int, 2 * SCALAR_LIMIT as int, diff as int, 255);
        }
        let q = num * diff / den;
        proof {
            lemma_div_pos_is_pos(num as int * diff as int, den as int);
            lemma_mul_inequality(num as int, den as int, diff as int);
            lemma_div_is_ordered(num as int * diff as int, den as int * diff as int, den as int);
            lemma_div_multiples_vanish(diff as int, den as int);
        }
        (c0 as i64 + q) as u8
    } else {
        let diff = (c0 - c1) as i64;
        proof {
            lemma_mul_nonnegative(num as int, diff as int);
            lemma_mul_upper_bound(num as int, 2 * SCALAR_LIMIT as int, diff as int, 255);
        }
        let q = num * diff / den;
        proof {
            lemma_div_pos_is_pos(num as int * diff as int, den as int);
            lemma_mul_inequality(num as int, den as int, diff as int);
            lemma_div_is_ordered(num as int * diff as int, den as int * diff as int, den as int);
            lemma_div_multiples_vanish(diff as int, den as int);
        }
        (c0 as i64 - q) as u8
    }
}

} // verus!
