//! Consonance model on the harmonic lattice 2^a × 3^b × 5^c.
//!
//! The integer side of the model lives here: lattice points and their
//! distances, the table of just intervals with its lattice coordinates, the
//! nearest-interval search over ordered error keys, note naming from a MIDI
//! number, and the hit-count grid of the pairwise heatmap.

use vstd::prelude::*;

verus! {

/// Lattice point in the 3-limit (2, 3, 5) harmonic space.
#[derive(Debug, Clone, Copy, PartialEq, Eq, Hash, Structural)]
pub struct LatticePoint {
    /// Power of 2.
    pub a: i8,
    /// Power of 3.
    pub b: i8,
    /// Power of 5.
    pub c: i8,
}

/// Squared Euclidean distance between two lattice points.
pub open spec fn squared_distance_spec(p: LatticePoint, q: LatticePoint) -> int {
    (p.a - q.a) * (p.a - q.a) + (p.b - q.b) * (p.b - q.b) + (p.c - q.c) * (p.c - q.c)
}

impl LatticePoint {
    pub fn new(a: i8, b: i8, c: i8) -> (p: Self)
        ensures
            p == (LatticePoint { a, b, c }),
    {
        Self { a, b, c }
    }

    /// Zero lattice point (unison).
    pub fn zero() -> (p: Self)
        ensures
            p == (LatticePoint { a: 0, b: 0, c: 0 }),
    {
        Self { a: 0, b: 0, c: 0 }
    }

    /// Squared Euclidean distance on the lattice; the distance is its square root.
    pub fn squared_distance(&self, other: &LatticePoint) -> (d: u32)
        ensures
            d as int == squared_distance_spec(*self, *other),
    {
        let da: i32 = self.a as i32 - other.a as i32;
        let db: i32 = self.b as i32 - other.b as i32;
        let dc: i32 = self.c as i32 - other.c as i32;
        proof {
            lemma_square_bound(da as int);
            lemma_square_bound(db as int);
            lemma_square_bound(dc as int);
        }
        let sum: i32 = da * da + db * db + dc * dc;
        sum as u32
    }
}

proof fn lemma_square_bound(x: int)
    by (nonlinear_arith)
    requires
        -255 <= x <= 255,
    ensures
        0 <= x * x <= 65025,
{
}

/// The squared lattice distance does not depend on the order of its arguments.
pub proof fn lemma_squared_distance_symmetric(p: LatticePoint, q: LatticePoint)
    ensures
        squared_distance_spec(p, q) == squared_distance_spec(q, p),
{
    assert((p.a - q.a) * (p.a - q.a) == (q.a - p.a) * (q.a - p.a)) by (nonlinear_arith);
    assert((p.b - q.b) * (p.b - q.b) == (q.b - p.b) * (q.b - p.b)) by (nonlinear_arith);
    assert((p.c - q.c) * (p.c - q.c) == (q.c - p.c) * (q.c - p.c)) by (nonlinear_arith);
}

/// Two lattice points are at distance zero exactly when they are the same point.
pub proof fn lemma_squared_distance_zero_iff_equal(p: LatticePoint, q: LatticePoint)
    ensures
        (squared_distance_spec(p, q) == 0) <==> (p == q),
{
    let x = p.a - q.a;
    let y = p.b - q.b;
    let z = p.c - q.c;
    assert(x * x + y * y + z * z == 0 <==> (x == 0 && y == 0 && z == 0)) by (nonlinear_arith);
}

// ---------------------------------------------------------------------------
// Just intervals

/// A just interval within the octave: its ratio `numerator / denominator` and
/// the lattice coordinates recorded for it.
#[derive(Debug, Clone, Copy, PartialEq, Eq, Structural)]
pub struct JustInterval {
    pub numerator: u32,
    pub denominator: u32,
    pub point: LatticePoint,
}

pub open spec fn interval(numerator: u32, denominator: u32, a: i8, b: i8, c: i8) -> JustInterval {
    JustInterval { numerator, denominator, point: LatticePoint { a, b, c } }
}

/// The table of common just intervals, unison through octave, in the order in
/// which the nearest-interval search visits them.
pub open spec fn just_interval_table() -> Seq<JustInterval> {
    seq![
        interval(1, 1, 0i8, 0i8, 0i8),
        interval(16, 15, 4i8, -1i8, -1i8),
        interval(9, 8, -3i8, 2i8, 0i8),
        interval(6, 5, 1i8, 1i8, -1i8),
        interval(5, 4, -2i8, 0i8, 1i8),
        interval(4, 3, 2i8, -1i8, 0i8),
        interval(45, 32, -5i8, 2i8, 1i8),
        interval(3, 2, -1i8, 1i8, 0i8),
        interval(8, 5, 3i8, 0i8, -1i8),
        interval(5, 3, 0i8, -1i8, 1i8),
        interval(9, 5, 0i8, 2i8, -1i8),
        interval(15, 8, -3i8, 1i8, 1i8),
        interval(2, 1, 1i8, 0i8, 0i8),
    ]
}

/// Number of entries in the just-interval table.
pub const JUST_INTERVAL_COUNT: usize = 13;

/// The table of common just intervals (see `just_interval_table`).
pub fn just_intervals() -> (table: Vec<JustInterval>)
    ensures
        table@ == just_interval_table(),
{
    let mut t: Vec<JustInterval> = Vec::new();
    t.push(JustInterval { numerator: 1, denominator: 1, point: LatticePoint::new(0, 0, 0) });
    t.push(JustInterval { numerator: 16, denominator: 15, point: LatticePoint::new(4, -1, -1) });
    t.push(JustInterval { numerator: 9, denominator: 8, point: LatticePoint::new(-3, 2, 0) });
    t.push(JustInterval { numerator: 6, denominator: 5, point: LatticePoint::new(1, 1, -1) });
    t.push(JustInterval { numerator: 5, denominator: 4, point: LatticePoint::new(-2, 0, 1) });
    t.push(JustInterval { numerator: 4, denominator: 3, point: LatticePoint::new(2, -1, 0) });
    t.push(JustInterval { numerator: 45, denominator: 32, point: LatticePoint::new(-5, 2, 1) });
    t.push(JustInterval { numerator: 3, denominator: 2, point: LatticePoint::new(-1, 1, 0) });
    t.push(JustInterval { numerator: 8, denominator: 5, point: LatticePoint::new(3, 0, -1) });
    t.push(JustInterval { numerator: 5, denominator: 3, point: LatticePoint::new(0, -1, 1) });
    t.push(JustInterval { numerator: 9, denominator: 5, point: LatticePoint::new(0, 2, -1) });
    t.push(JustInterval { numerator: 15, denominator: 8, point: LatticePoint::new(-3, 1, 1) });
    t.push(JustInterval { numerator: 2, denominator: 1, point: LatticePoint::new(1, 0, 0) });
    assert(t@ =~= just_interval_table());
    t
}

/// `base` raised to the power `e`.
pub open spec fn power(base: int, e: nat) -> int
    decreases e,
{
    if e == 0 {
        1
    } else {
        base * power(base, (e - 1) as nat)
    }
}

pub open spec fn positive_part(x: int) -> nat {
    if x > 0 { x as nat } else { 0 }
}

pub open spec fn negative_part(x: int) -> nat {
    if x < 0 { (-x) as nat } else { 0 }
}

/// Numerator of the ratio 2^a × 3^b × 5^c written as a fraction.
pub open spec fn lattice_numerator(p: LatticePoint) -> int {
    power(2, positive_part(p.a as int)) * power(3, positive_part(p.b as int)) * power(
        5,
        positive_part(p.c as int),
    )
}

/// Denominator of the ratio 2^a × 3^b × 5^c written as a fraction.
pub open spec fn lattice_denominator(p: LatticePoint) -> int {
    power(2, negative_part(p.a as int)) * power(3, negative_part(p.b as int)) * power(
        5,
        negative_part(p.c as int),
    )
}

/// The lattice point of the interval denotes the interval's ratio.
pub open spec fn interval_is_consistent(iv: JustInterval) -> bool {
    iv.numerator * lattice_denominator(iv.point) == iv.denominator * lattice_numerator(iv.point)
}

/// Every entry of the just-interval table denotes its own ratio on the
/// lattice: `numerator / denominator == 2^a × 3^b × 5^c`.
pub proof fn lemma_just_intervals_consistent(i: int)
    requires
        0 <= i < 13,
    ensures
        interval_is_consistent(just_interval_table()[i]),
{
    lemma_small_powers();
    let t = just_interval_table();
    assert(lattice_numerator(t[0].point) == 1 && lattice_denominator(t[0].point) == 1);
    assert(lattice_numerator(t[1].point) == 16 && lattice_denominator(t[1].point) == 15);
    assert(lattice_numerator(t[2].point) == 9 && lattice_denominator(t[2].point) == 8);
    assert(lattice_numerator(t[3].point) == 6 && lattice_denominator(t[3].point) == 5);
    assert(lattice_numerator(t[4].point) == 5 && lattice_denominator(t[4].point) == 4);
    assert(lattice_numerator(t[5].point) == 4 && lattice_denominator(t[5].point) == 3);
    assert(t[6].point == LatticePoint { a: -5i8, b: 2i8, c: 1i8 });
    assert(lattice_numerator(t[6].point) == 1 * 9 * 5);
    assert(lattice_denominator(t[6].point) == 32 * 1 * 1);
    assert(lattice_numerator(t[7].point) == 3 && lattice_denominator(t[7].point) == 2);
    assert(lattice_numerator(t[8].point) == 8 && lattice_denominator(t[8].point) == 5);
    assert(lattice_numerator(t[9].point) == 5 && lattice_denominator(t[9].point) == 3);
    assert(lattice_numerator(t[10].point) == 9 && lattice_denominator(t[10].point) == 5);
    assert(lattice_numerator(t[11].point) == 15 && lattice_denominator(t[11].point) == 8);
    assert(lattice_numerator(t[12].point) == 2 && lattice_denominator(t[12].point) == 1);
    assert(forall|k: int| 0 <= k < 13 ==> interval_is_consistent(#[trigger] t[k])) by {
        assert(interval_is_consistent(t[0]) && interval_is_consistent(t[1]) && interval_is_consistent(t[2]));
        assert(interval_is_consistent(t[3]) && interval_is_consistent(t[4]) && interval_is_consistent(t[5]));
        assert(interval_is_consistent(t[6]) && interval_is_consistent(t[7]) && interval_is_consistent(t[8]));
        assert(interval_is_consistent(t[9]) && interval_is_consistent(t[10]) && interval_is_consistent(t[11]));
        assert(interval_is_consistent(t[12]));
    }
}

/// The table runs from unison (1/1) to the octave (2/1), its ratios strictly
/// increasing, so no interval appears twice.
pub proof fn lemma_just_intervals_increasing()
    ensures
        just_interval_table().len() == 13,
        just_interval_table()[0].numerator == 1 && just_interval_table()[0].denominator == 1,
        just_interval_table()[12].numerator == 2 && just_interval_table()[12].denominator == 1,
        forall|i: int, j: int|
            0 <= i < j < 13 ==> (#[trigger] just_interval_table()[i]).numerator * (
            #[trigger] just_interval_table()[j]).denominator < just_interval_table()[j].numerator
                * just_interval_table()[i].denominator,
{
    let t = just_interval_table();
    assert(t[0].numerator == 1 && t[0].denominator == 1);
    assert(t[1].numerator == 16 && t[1].denominator == 15);
    assert(t[2].numerator == 9 && t[2].denominator == 8);
    assert(t[3].numerator == 6 && t[3].denominator == 5);
    assert(t[4].numerator == 5 && t[4].denominator == 4);
    assert(t[5].numerator == 4 && t[5].denominator == 3);
    assert(t[6].numerator == 45 && t[6].denominator == 32);
    assert(t[7].numerator == 3 && t[7].denominator == 2);
    assert(t[8].numerator == 8 && t[8].denominator == 5);
    assert(t[9].numerator == 5 && t[9].denominator == 3);
    assert(t[10].numerator == 9 && t[10].denominator == 5);
    assert(t[11].numerator == 15 && t[11].denominator == 8);
    assert(t[12].numerator == 2 && t[12].denominator == 1);
    assert forall|i: int, j: int| 0 <= i < j < 13 implies (#[trigger] t[i]).numerator * (
    #[trigger] t[j]).denominator < t[j].numerator * t[i].denominator by {
        if i == 0 {
            if j == 1 {
                assert(t[0].numerator * t[1].denominator < t[1].numerator * t[0].denominator);
            } else if j == 2 {
                assert(t[0].numerator * t[2].denominator < t[2].numerator * t[0].denominator);
            } else if j == 3 {
                assert(t[0].numerator * t[3].denominator < t[3].numerator * t[0].denominator);
            } else if j == 4 {
                assert(t[0].numerator * t[4].denominator < t[4].numerator * t[0].denominator);
            } else if j == 5 {
                assert(t[0].numerator * t[5].denominator < t[5].numerator * t[0].denominator);
            } else if j == 6 {
                assert(t[0].numerator * t[6].denominator < t[6].numerator * t[0].denominator);
            } else if j == 7 {
                assert(t[0].numerator * t[7].denominator < t[7].numerator * t[0].denominator);
            } else if j == 8 {
                assert(t[0].numerator * t[8].denominator < t[8].numerator * t[0].denominator);
            } else if j == 9 {
                assert(t[0].numerator * t[9].denominator < t[9].numerator * t[0].denominator);
            } else if j == 10 {
                assert(t[0].numerator * t[10].denominator < t[10].numerator * t[0].denominator);
            } else if j == 11 {
                assert(t[0].numerator * t[11].denominator < t[11].numerator * t[0].denominator);
            } else if j == 12 {
                assert(t[0].numerator * t[12].denominator < t[12].numerator * t[0].denominator);
            }
        } else if i == 1 {
            if j == 2 {
                assert(t[1].numerator * t[2].denominator < t[2].numerator * t[1].denominator);
            } else if j == 3 {
                assert(t[1].numerator * t[3].denominator < t[3].numerator * t[1].denominator);
            } else if j == 4 {
                assert(t[1].numerator * t[4].denominator < t[4].numerator * t[1].denominator);
            } else if j == 5 {
                assert(t[1].numerator * t[5].denominator < t[5].numerator * t[1].denominator);
            } else if j == 6 {
                assert(t[1].numerator * t[6].denominator < t[6].numerator * t[1].denominator);
            } else if j == 7 {
                assert(t[1].numerator * t[7].denominator < t[7].numerator * t[1].denominator);
            } else if j == 8 {
                assert(t[1].numerator * t[8].denominator < t[8].numerator * t[1].denominator);
            } else if j == 9 {
                assert(t[1].numerator * t[9].denominator < t[9].numerator * t[1].denominator);
            } else if j == 10 {
                assert(t[1].numerator * t[10].denominator < t[10].numerator * t[1].denominator);
            } else if j == 11 {
                assert(t[1].numerator * t[11].denominator < t[11].numerator * t[1].denominator);
            } else if j == 12 {
                assert(t[1].numerator * t[12].denominator < t[12].numerator * t[1].denominator);
            }
        } else if i == 2 {
            if j == 3 {
                assert(t[2].numerator * t[3].denominator < t[3].numerator * t[2].denominator);
            } else if j == 4 {
                assert(t[2].numerator * t[4].denominator < t[4].numerator * t[2].denominator);
            } else if j == 5 {
                assert(t[2].numerator * t[5].denominator < t[5].numerator * t[2].denominator);
            } else if j == 6 {
                assert(t[2].numerator * t[6].denominator < t[6].numerator * t[2].denominator);
            } else if j == 7 {
                assert(t[2].numerator * t[7].denominator < t[7].numerator * t[2].denominator);
            } else if j == 8 {
                assert(t[2].numerator * t[8].denominator < t[8].numerator * t[2].denominator);
            } else if j == 9 {
                assert(t[2].numerator * t[9].denominator < t[9].numerator * t[2].denominator);
            } else if j == 10 {
                assert(t[2].numerator * t[10].denominator < t[10].numerator * t[2].denominator);
            } else if j == 11 {
                assert(t[2].numerator * t[11].denominator < t[11].numerator * t[2].denominator);
            } else if j == 12 {
                assert(t[2].numerator * t[12].denominator < t[12].numerator * t[2].denominator);
            }
        } else if i == 3 {
            if j == 4 {
                assert(t[3].numerator * t[4].denominator < t[4].numerator * t[3].denominator);
            } else if j == 5 {
                assert(t[3].numerator * t[5].denominator < t[5].numerator * t[3].denominator);
            } else if j == 6 {
                assert(t[3].numerator * t[6].denominator < t[6].numerator * t[3].denominator);
            } else if j == 7 {
                assert(t[3].numerator * t[7].denominator < t[7].numerator * t[3].denominator);
            } else if j == 8 {
                assert(t[3].numerator * t[8].denominator < t[8].numerator * t[3].denominator);
            } else if j == 9 {
                assert(t[3].numerator * t[9].denominator < t[9].numerator * t[3].denominator);
            } else if j == 10 {
                assert(t[3].numerator * t[10].denominator < t[10].numerator * t[3].denominator);
            } else if j == 11 {
                assert(t[3].numerator * t[11].denominator < t[11].numerator * t[3].denominator);
            } else if j == 12 {
                assert(t[3].numerator * t[12].denominator < t[12].numerator * t[3].denominator);
            }
        } else if i == 4 {
            if j == 5 {
                assert(t[4].numerator * t[5].denominator < t[5].numerator * t[4].denominator);
            } else if j == 6 {
                assert(t[4].numerator * t[6].denominator < t[6].numerator * t[4].denominator);
            } else if j == 7 {
                assert(t[4].numerator * t[7].denominator < t[7].numerator * t[4].denominator);
            } else if j == 8 {
                assert(t[4].numerator * t[8].denominator < t[8].numerator * t[4].denominator);
            } else if j == 9 {
                assert(t[4].numerator * t[9].denominator < t[9].numerator * t[4].denominator);
            } else if j == 10 {
                assert(t[4].numerator * t[10].denominator < t[10].numerator * t[4].denominator);
            } else if j == 11 {
                assert(t[4].numerator * t[11].denominator < t[11].numerator * t[4].denominator);
            } else if j == 12 {
                assert(t[4].numerator * t[12].denominator < t[12].numerator * t[4].denominator);
            }
        } else if i == 5 {
            if j == 6 {
                assert(t[5].numerator * t[6].denominator < t[6].numerator * t[5].denominator);
            } else if j == 7 {
                assert(t[5].numerator * t[7].denominator < t[7].numerator * t[5].denominator);
            } else if j == 8 {
                assert(t[5].numerator * t[8].denominator < t[8].numerator * t[5].denominator);
            } else if j == 9 {
                assert(t[5].numerator * t[9].denominator < t[9].numerator * t[5].denominator);
            } else if j == 10 {
                assert(t[5].numerator * t[10].denominator < t[10].numerator * t[5].denominator);
            } else if j == 11 {
                assert(t[5].numerator * t[11].denominator < t[11].numerator * t[5].denominator);
            } else if j == 12 {
                assert(t[5].numerator * t[12].denominator < t[12].numerator * t[5].denominator);
            }
        } else if i == 6 {
            if j == 7 {
                assert(t[6].numerator * t[7].denominator < t[7].numerator * t[6].denominator);
            } else if j == 8 {
                assert(t[6].numerator * t[8].denominator < t[8].numerator * t[6].denominator);
            } else if j == 9 {
                assert(t[6].numerator * t[9].denominator < t[9].numerator * t[6].denominator);
            } else if j == 10 {
                assert(t[6].numerator * t[10].denominator < t[10].numerator * t[6].denominator);
            } else if j == 11 {
                assert(t[6].numerator * t[11].denominator < t[11].numerator * t[6].denominator);
            } else if j == 12 {
                assert(t[6].numerator * t[12].denominator < t[12].numerator * t[6].denominator);
            }
        } else if i == 7 {
            if j == 8 {
                assert(t[7].numerator * t[8].denominator < t[8].numerator * t[7].denominator);
            } else if j == 9 {
                assert(t[7].numerator * t[9].denominator < t[9].numerator * t[7].denominator);
            } else if j == 10 {
                assert(t[7].numerator * t[10].denominator < t[10].numerator * t[7].denominator);
            } else if j == 11 {
                assert(t[7].numerator * t[11].denominator < t[11].numerator * t[7].denominator);
            } else if j == 12 {
                assert(t[7].numerator * t[12].denominator < t[12].numerator * t[7].denominator);
            }
        } else if i == 8 {
            if j == 9 {
                assert(t[8].numerator * t[9].denominator < t[9].numerator * t[8].denominator);
            } else if j == 10 {
                assert(t[8].numerator * t[10].denominator < t[10].numerator * t[8].denominator);
            } else if j == 11 {
                assert(t[8].numerator * t[11].denominator < t[11].numerator * t[8].denominator);
            } else if j == 12 {
                assert(t[8].numerator * t[12].denominator < t[12].numerator * t[8].denominator);
            }
        } else if i == 9 {
            if j == 10 {
                assert(t[9].numerator * t[10].denominator < t[10].numerator * t[9].denominator);
            } else if j == 11 {
                assert(t[9].numerator * t[11].denominator < t[11].numerator * t[9].denominator);
            } else if j == 12 {
                assert(t[9].numerator * t[12].denominator < t[12].numerator * t[9].denominator);
            }
        } else if i == 10 {
            if j == 11 {
                assert(t[10].numerator * t[11].denominator < t[11].numerator * t[10].denominator);
            } else if j == 12 {
                assert(t[10].numerator * t[12].denominator < t[12].numerator * t[10].denominator);
            }
        } else if i == 11 {
            if j == 12 {
                assert(t[11].numerator * t[12].denominator < t[12].numerator * t[11].denominator);
            }
        }
    }
}

proof fn lemma_small_powers()
    ensures
        power(2, 0) == 1,
        power(2, 1) == 2,
        power(2, 2) == 4,
        power(2, 3) == 8,
        power(2, 4) == 16,
        power(2, 5) == 32,
        power(3, 0) == 1,
        power(3, 1) == 3,
        power(3, 2) == 9,
        power(5, 0) == 1,
        power(5, 1) == 5,
{
    reveal_with_fuel(power, 6);
}

// ---------------------------------------------------------------------------
// Nearest just interval

/// The bit pattern of the largest finite `f64`: the error bound the search
/// starts from. For non-negative floats, and for NaN, comparing bit patterns
/// as integers orders them as `<` on the floats does.
pub const START_ERROR_KEY: u64 = 0x7FEF_FFFF_FFFF_FFFF;

/// Index of the first entry among the first `n` with the least key strictly
/// below the starting bound, scanning in order and replacing the best only on
/// a strictly smaller key.
pub open spec fn nearest_index(keys: Seq<u64>, n: int) -> Option<int>
    decreases n,
{
    if n <= 0 {
        None
    } else {
        let prev = nearest_index(keys, n - 1);
        let bound = match prev {
            Some(j) => keys[j],
            None => START_ERROR_KEY,
        };
        if keys[n - 1] < bound {
            Some(n - 1)
        } else {
            prev
        }
    }
}

/// The lattice point chosen for the error keys of the table's entries.
pub open spec fn nearest_point(keys: Seq<u64>) -> LatticePoint {
    match nearest_index(keys, keys.len() as int) {
        Some(i) => just_interval_table()[i].point,
        None => LatticePoint { a: 0, b: 0, c: 0 },
    }
}

/// The search picks the first entry whose key is least, provided that key is
/// below the starting bound; with no such key it picks nothing.
pub proof fn lemma_nearest_index_is_first_minimum(keys: Seq<u64>, n: int)
    requires
        0 <= n <= keys.len(),
    ensures
        nearest_index(keys, n) is None ==> forall|j: int| 0 <= j < n ==> keys[j] >= START_ERROR_KEY,
        nearest_index(keys, n) matches Some(i) ==> {
            &&& 0 <= i < n
            &&& keys[i] < START_ERROR_KEY
            &&& forall|j: int| 0 <= j < n ==> keys[i] <= keys[j]
            &&& forall|j: int| 0 <= j < i ==> keys[i] < keys[j]
        },
    decreases n,
{
    if n > 0 {
        lemma_nearest_index_is_first_minimum(keys, n - 1);
    }
}

/// Chooses the just interval nearest to a ratio, given for each table entry
/// the ordering key of its error (the bit pattern of `|ratio - entry|`).
/// Returns the unison point when no error is below the starting bound.
pub fn nearest_just_interval(error_keys: &Vec<u64>) -> (p: LatticePoint)
    requires
        error_keys.len() == JUST_INTERVAL_COUNT,
    ensures
        p == nearest_point(error_keys@),
{
    let table = just_intervals();
    let mut best = LatticePoint::zero();
    let mut best_key: u64 = START_ERROR_KEY;
    let mut i: usize = 0;
    while i < JUST_INTERVAL_COUNT
        invariant
            0 <= i <= JUST_INTERVAL_COUNT,
            error_keys.len() == JUST_INTERVAL_COUNT,
            table@ == just_interval_table(),
            match nearest_index(error_keys@, i as int) {
                Some(j) => best == just_interval_table()[j].point && best_key == error_keys@[j],
                None => best == (LatticePoint { a: 0, b: 0, c: 0 }) && best_key == START_ERROR_KEY,
            },
        decreases JUST_INTERVAL_COUNT - i,
    {
        if error_keys[i] < best_key {
            best_key = error_keys[i];
            best = table[i].point;
        }
        i = i + 1;
    }
    best
}

// ---------------------------------------------------------------------------
// Note names

/// `x / d` rounded toward zero, as Rust's integer division does.
pub open spec fn trunc_div(x: int, d: int) -> int {
    if x >= 0 {
        x / d
    } else {
        -((-x) / d)
    }
}

/// Name of the pitch class `i` (0 = C, …, 11 = B).
pub open spec fn note_name(i: int) -> Seq<char> {
    if i == 0 {
        "C"@
    } else if i == 1 {
        "C#"@
    } else if i == 2 {
        "D"@
    } else if i == 3 {
        "D#"@
    } else if i == 4 {
        "E"@
    } else if i == 5 {
        "F"@
    } else if i == 6 {
        "F#"@
    } else if i == 7 {
        "G"@
    } else if i == 8 {
        "G#"@
    } else if i == 9 {
        "A"@
    } else if i == 10 {
        "A#"@
    } else {
        "B"@
    }
}

/// The twelve pitch classes have twelve different names.
pub proof fn lemma_note_names_distinct(i: int, j: int)
    requires
        0 <= i < 12,
        0 <= j < 12,
        i != j,
    ensures
        note_name(i) != note_name(j),
{
    reveal_strlit("C");
    reveal_strlit("C#");
    reveal_strlit("D");
    reveal_strlit("D#");
    reveal_strlit("E");
    reveal_strlit("F");
    reveal_strlit("F#");
    reveal_strlit("G");
    reveal_strlit("G#");
    reveal_strlit("A");
    reveal_strlit("A#");
    reveal_strlit("B");
    let a = note_name(i);
    let b = note_name(j);
    assert(a[0] as int * 2 + a.len() != b[0] as int * 2 + b.len());
}

/// Every name is a letter from A to G, alone or followed by `#`; C, D, E, F,
/// G, A, B name the pitch classes 0, 2, 4, 5, 7, 9, 11.
pub proof fn lemma_note_name_shape(i: int)
    requires
        0 <= i < 12,
    ensures
        'A' <= note_name(i)[0] <= 'G',
        note_name(i).len() == 1 || (note_name(i).len() == 2 && note_name(i)[1] == '#'),
        note_name(0) == seq!['C'] && note_name(2) == seq!['D'] && note_name(4) == seq!['E'],
        note_name(5) == seq!['F'] && note_name(7) == seq!['G'] && note_name(9) == seq!['A'],
        note_name(11) == seq!['B'],
        note_name(1) == seq!['C', '#'] && note_name(3) == seq!['D', '#'] && note_name(6) == seq!['F', '#'],
        note_name(8) == seq!['G', '#'] && note_name(10) == seq!['A', '#'],
{
    reveal_strlit("C");
    reveal_strlit("C#");
    reveal_strlit("D");
    reveal_strlit("D#");
    reveal_strlit("E");
    reveal_strlit("F");
    reveal_strlit("F#");
    reveal_strlit("G");
    reveal_strlit("G#");
    reveal_strlit("A");
    reveal_strlit("A#");
    reveal_strlit("B");
    assert("C"@ =~= seq!['C']);
    assert("D"@ =~= seq!['D']);
    assert("E"@ =~= seq!['E']);
    assert("F"@ =~= seq!['F']);
    assert("G"@ =~= seq!['G']);
    assert("A"@ =~= seq!['A']);
    assert("B"@ =~= seq!['B']);
    assert("C#"@ =~= seq!['C', '#']);
    assert("D#"@ =~= seq!['D', '#']);
    assert("F#"@ =~= seq!['F', '#']);
    assert("G#"@ =~= seq!['G', '#']);
    assert("A#"@ =~= seq!['A', '#']);
}

/// Octave of a MIDI note number (MIDI 60 is C4); a negative result wraps as
/// a `u32`, as the cast does.
pub open spec fn midi_octave(midi: int) -> u32 {
    let x = trunc_div(midi, 12) - 1;
    if x >= 0 {
        x as u32
    } else {
        (x + 0x1_0000_0000) as u32
    }
}

/// Note name and octave of a MIDI note number: the pitch class is the note
/// number modulo 12 (counted upward from C also below zero).
pub fn midi_to_note(midi: i32) -> (r: (String, u32))
    ensures
        r.0@ == note_name((midi as int) % 12),
        r.1 == midi_octave(midi as int),
{
    let index: i32 = (midi % 12 + 12) % 12;
    let x: i32 = midi / 12 - 1;
    let octave: u32 = if x >= 0 {
        x as u32
    } else {
        (x as i64 + 0x1_0000_0000i64) as u32
    };
    let name = if index == 0 {
        String::from_str("C")
    } else if index == 1 {
        String::from_str("C#")
    } else if index == 2 {
        String::from_str("D")
    } else if index == 3 {
        String::from_str("D#")
    } else if index == 4 {
        String::from_str("E")
    } else if index == 5 {
        String::from_str("F")
    } else if index == 6 {
        String::from_str("F#")
    } else if index == 7 {
        String::from_str("G")
    } else if index == 8 {
        String::from_str("G#")
    } else if index == 9 {
        String::from_str("A")
    } else if index == 10 {
        String::from_str("A#")
    } else {
        String::from_str("B")
    };
    (name, octave)
}

/// One octave up keeps the note name and raises the octave by one (from
/// MIDI 12, the first note of octave 0, on).
pub proof fn lemma_octave_up(midi: int)
    requires
        12 <= midi <= i32::MAX - 12,
    ensures
        note_name((midi + 12) % 12) == note_name(midi % 12),
        midi_octave(midi) as int == midi / 12 - 1,
        midi_octave(midi + 12) as int == midi_octave(midi) as int + 1,
{
    assert(trunc_div(midi + 12, 12) == trunc_div(midi, 12) + 1);
}

// ---------------------------------------------------------------------------
// Hit counts of the pairwise heatmap

/// `g` is an `n × n` grid.
pub open spec fn is_square(g: Seq<Seq<u32>>, n: int) -> bool {
    &&& g.len() == n
    &&& forall|i: int| 0 <= i < n ==> #[trigger] g[i].len() == n
}

/// `g` is an `n × n` grid equal to its transpose.
pub open spec fn is_symmetric(g: Seq<Seq<u32>>, n: int) -> bool {
    &&& is_square(g, n)
    &&& forall|i: int, j: int| 0 <= i < n && 0 <= j < n ==> #[trigger] g[i][j] == #[trigger] g[j][i]
}

/// The cells a pair of bins touches: the cell itself, and its mirror when the
/// two bins differ.
pub open spec fn pair_cells(bin1: int, bin2: int) -> Seq<(int, int)> {
    if bin1 == bin2 {
        seq![(bin1, bin2)]
    } else {
        seq![(bin1, bin2), (bin2, bin1)]
    }
}

/// Recording a pair touches exactly the cell and its mirror, each once: one
/// cell when the bins are equal, two otherwise.
pub proof fn lemma_pair_cells_cell_and_mirror(bin1: int, bin2: int)
    ensures
        forall|c: (int, int)| pair_cells(bin1, bin2).contains(c) <==> (c == (bin1, bin2) || c == (bin2, bin1)),
        pair_cells(bin1, bin2).len() == if bin1 == bin2 { 1int } else { 2int },
        pair_cells(bin1, bin2).no_duplicates(),
{
    let cells = pair_cells(bin1, bin2);
    assert forall|c: (int, int)| cells.contains(c) <==> (c == (bin1, bin2) || c == (bin2, bin1)) by {
        if c == (bin1, bin2) {
            assert(cells[0] == c);
        }
        if c == (bin2, bin1) {
            if bin1 == bin2 {
                assert(cells[0] == c);
            } else {
                assert(cells[1] == c);
            }
        }
    }
}

/// The cells of a pair are the cells of the reversed pair with each cell
/// mirrored: recording keeps the heatmap symmetric.
pub proof fn lemma_pair_cells_mirrored(bin1: int, bin2: int)
    ensures
        pair_cells(bin2, bin1).len() == pair_cells(bin1, bin2).len(),
        forall|k: int|
            0 <= k < pair_cells(bin1, bin2).len() ==> #[trigger] pair_cells(bin2, bin1)[k] == (
                pair_cells(bin1, bin2)[k].1,
                pair_cells(bin1, bin2)[k].0,
            ),
{
}

/// `g` with cell `(i, j)` incremented.
pub open spec fn bump(g: Seq<Seq<u32>>, i: int, j: int) -> Seq<Seq<u32>> {
    g.update(i, g[i].update(j, (g[i][j] + 1) as u32))
}

/// `g` after recording the pair `(bin1, bin2)`: each of its cells incremented once.
pub open spec fn recorded(g: Seq<Seq<u32>>, bin1: int, bin2: int) -> Seq<Seq<u32>> {
    if bin1 == bin2 {
        bump(g, bin1, bin2)
    } else {
        bump(bump(g, bin1, bin2), bin2, bin1)
    }
}

/// The cells that recording the pair `(bin1, bin2)` touches, in the order the
/// heatmap updates them.
pub fn bin_cells(bin1: usize, bin2: usize) -> (cells: Vec<(usize, usize)>)
    ensures
        cells@.len() == pair_cells(bin1 as int, bin2 as int).len(),
        forall|k: int|
            0 <= k < cells@.len() ==> (#[trigger] cells@[k].0 as int, cells@[k].1 as int)
                == pair_cells(bin1 as int, bin2 as int)[k],
{
    let mut cells: Vec<(usize, usize)> = Vec::new();
    cells.push((bin1, bin2));
    if bin1 != bin2 {
        cells.push((bin2, bin1));
    }
    cells
}

/// An all-zero `bins × bins` grid of hit counts.
pub fn zero_counts(bins: usize) -> (g: Vec<Vec<u32>>)
    ensures
        is_square(g.deep_view(), bins as int),
        forall|i: int, j: int| 0 <= i < bins && 0 <= j < bins ==> #[trigger] g.deep_view()[i][j] == 0,
{
    let mut g: Vec<Vec<u32>> = Vec::new();
    let mut i: usize = 0;
    while i < bins
        invariant
            0 <= i <= bins,
            g@.len() == i,
            forall|k: int| 0 <= k < i ==> #[trigger] g@[k]@.len() == bins,
            forall|k: int, j: int| 0 <= k < i && 0 <= j < bins ==> #[trigger] g@[k]@[j] == 0,
        decreases bins - i,
    {
        let mut row: Vec<u32> = Vec::new();
        let mut j: usize = 0;
        while j < bins
            invariant
                0 <= j <= bins,
                row@.len() == j,
                forall|k: int| 0 <= k < j ==> #[trigger] row@[k] == 0,
            decreases bins - j,
        {
            row.push(0);
            j = j + 1;
        }
        g.push(row);
        i = i + 1;
    }
    g
}

fn bump_cell(g: &mut Vec<Vec<u32>>, i: usize, j: usize)
    requires
        i < old(g)@.len(),
        j < old(g)@[i as int]@.len(),
        old(g).deep_view()[i as int][j as int] < u32::MAX,
    ensures
        final(g).deep_view() == bump(old(g).deep_view(), i as int, j as int),
        final(g)@.len() == old(g)@.len(),
        forall|k: int| 0 <= k < old(g)@.len() ==> #[trigger] final(g)@[k]@.len() == old(g)@[k]@.len(),
        forall|k: int, m: int| 0 <= k < old(g)@.len() && 0 <= m < old(g)@[k]@.len() && (k, m) != (
            i as int,
            j as int,
        ) ==> #[trigger] final(g).deep_view()[k][m] == old(g).deep_view()[k][m],
{
    let ghost before = g.deep_view();
    let v: u32 = g[i][j] + 1;
    let mut row: Vec<u32> = g[i].clone();
    assert(row@ == before[i as int]);
    row.set(j, v);
    g.set(i, row);
    assert(g.deep_view() =~~= bump(before, i as int, j as int));
}

/// Records one hit of the bin pair `(bin1, bin2)`: increments the cell and,
/// when the bins differ, its mirror.
pub fn record_count(counts: &mut Vec<Vec<u32>>, bin1: usize, bin2: usize)
    requires
        bin1 < old(counts)@.len(),
        bin2 < old(counts)@.len(),
        bin2 < old(counts)@[bin1 as int]@.len(),
        bin1 < old(counts)@[bin2 as int]@.len(),
        old(counts).deep_view()[bin1 as int][bin2 as int] < u32::MAX,
        old(counts).deep_view()[bin2 as int][bin1 as int] < u32::MAX,
    ensures
        final(counts).deep_view() == recorded(old(counts).deep_view(), bin1 as int, bin2 as int),
{
    bump_cell(counts, bin1, bin2);
    if bin1 != bin2 {
        bump_cell(counts, bin2, bin1);
    }
}

/// Recording a pair keeps a symmetric grid symmetric.
pub proof fn lemma_record_keeps_symmetry(g: Seq<Seq<u32>>, n: int, bin1: int, bin2: int)
    requires
        is_symmetric(g, n),
        0 <= bin1 < n,
        0 <= bin2 < n,
        g[bin1][bin2] < u32::MAX,
    ensures
        is_symmetric(recorded(g, bin1, bin2), n),
{
    let r = recorded(g, bin1, bin2);
    assert forall|i: int, j: int| 0 <= i < n && 0 <= j < n implies #[trigger] r[i][j] == #[trigger] r[j][i] by {
        assert(g[i][j] == g[j][i]);
    }
}

/// The largest bin index is `bins - 1`: a scaled position past it falls in the last bin.
pub fn clamp_bin(scaled: usize, bins: usize) -> (bin: usize)
    requires
        bins >= 1,
    ensures
        bin == if scaled < bins - 1 { scaled } else { (bins - 1) as usize },
{
    if scaled < bins - 1 {
        scaled
    } else {
        bins - 1
    }
}

} // verus!
