//! The spatial connectivity generator: a deterministic, enumerable
//! coordinate space for the three neuron families, and, for any plastic or
//! sensory coordinate, the fixed-size list of destination coordinates it
//! synapses onto.
//!
//! Coordinates are integer triples.  Plastic coordinates fill a cube
//! `{0..L-1}^3`; actuator coordinates sit on the plane `y = L` in raster
//! order; sensory coordinates sit on the plane `y = -1` over a square grid.

use vstd::prelude::*;
use crate::ConfigError;
use crate::{lemma_div_at_most, lemma_div_below};

verus! {

/// A coordinate triple as a sequence of three axis values.
pub open spec fn coord3(x: int, y: int, z: int) -> Seq<i32> {
    seq![x as i32, y as i32, z as i32]
}

/// The `i`-th plastic coordinate: lexicographic with `x` fastest.
pub open spec fn plastic_coord(side: nat, i: int) -> Seq<i32> {
    coord3(i % side as int, (i / side as int) % side as int, i / (side as int * side as int))
}

/// The `i`-th actuator coordinate: raster order over the plane `y = side`.
pub open spec fn actuator_coord(side: nat, i: int) -> Seq<i32> {
    coord3(i % side as int, side as int, i / side as int)
}

/// The `i`-th sensory coordinate: raster order over the plane `y = -1`.
pub open spec fn sensory_coord(side: nat, i: int) -> Seq<i32> {
    coord3(i % side as int, -1, i / side as int)
}

/// A whole number is a perfect cube.
pub open spec fn is_cube(n: int) -> bool {
    exists|r: int| 0 <= r && #[trigger] (r * r * r) == n
}

/// A window origin, clamped so the window stays inside `[0, side - window]`.
pub open spec fn clamp_origin(v: int, side: nat, window: nat) -> int {
    if v < 0 {
        0
    } else if v > side - window {
        side - window
    } else {
        v
    }
}

/// Membership in a `w`-sided window anchored at `(x0, y0, z0)`, omitting the
/// window's final scan-order corner so that the cell count is `w^3 - 1`.
pub open spec fn in_window(x0: int, y0: int, z0: int, w: nat, c: Seq<i32>) -> bool {
    &&& c.len() == 3
    &&& x0 <= c[0] < x0 + w
    &&& y0 <= c[1] < y0 + w
    &&& z0 <= c[2] < z0 + w
    &&& !(c[0] == x0 + w - 1 && c[1] == y0 + w - 1 && c[2] == z0 + w - 1)
}

/// The registration window of the actuator with raster index `a`: a window
/// on the plastic layers adjacent to the actuator plane, anchored near the
/// actuator's projected `(x, z)`.
pub open spec fn reg_x0(side: nat, window: nat, a: int) -> int {
    clamp_origin(a % side as int - (window as int / 2), side, window)
}

pub open spec fn reg_z0(side: nat, window: nat, a: int) -> int {
    clamp_origin(a / side as int - (window as int / 2), side, window)
}

/// Whether the plastic coordinate `c` lies in actuator `a`'s registration
/// window.
pub open spec fn in_reg_window(side: nat, window: nat, a: int, c: Seq<i32>) -> bool {
    in_window(reg_x0(side, window, a), side - window, reg_z0(side, window, a), window, c)
}

/// The actuator indices among the first `k` whose registration window holds
/// the plastic coordinate `c`, in raster order.
pub open spec fn spec_adj(side: nat, window: nat, c: Seq<i32>, k: nat) -> Seq<u32>
    decreases k,
{
    if k == 0 {
        Seq::empty()
    } else {
        let prev = spec_adj(side, window, c, (k - 1) as nat);
        if in_reg_window(side, window, k - 1, c) {
            prev.push((k - 1) as u32)
        } else {
            prev
        }
    }
}

/// The destinations a source coordinate synapses onto, as a formula over
/// the lattice parameters: for a sensory source (negative second axis), the
/// whole scan window anchored at the rescaled coordinate; for a plastic
/// source, the actuators of its adjacency list and then window cells from
/// scan position `len(adjacency)` on, filling the nearby budget.
pub open spec fn spec_box_nearby(
    side: nat,
    window: nat,
    sensory_side: nat,
    nearby: nat,
    n_act: nat,
    loc: Seq<i32>,
) -> (Seq<Seq<i32>>, Seq<Seq<i32>>) {
    let half = window as int / 2;
    if loc.len() == 3 && loc[1] < 0 {
        let x0 = (side - window) * loc[0] / sensory_side as int;
        let z0 = (side - window) * loc[2] / sensory_side as int;
        (
            Seq::new((window * window * window - 1) as nat, |j: int| window_cell(x0, 0, z0, window, j)),
            Seq::empty(),
        )
    } else {
        let adj = spec_adj(side, window, loc, n_act);
        let x0 = clamp_origin(loc[0] - half, side, window);
        let y0 = clamp_origin(loc[1] - half, side, window);
        let z0 = clamp_origin(loc[2] - half, side, window);
        let budget: nat = if adj.len() <= nearby {
            (nearby - adj.len()) as nat
        } else {
            0
        };
        (
            Seq::new(budget, |j: int| window_cell(x0, y0, z0, window, j + adj.len())),
            adj.map_values(|a: u32| actuator_coord(side, a as int)),
        )
    }
}

/// The cell a window scan visits at step `j`: `x` fastest, then `y`, then `z`.
pub open spec fn window_cell(x0: int, y0: int, z0: int, w: nat, j: int) -> Seq<i32> {
    coord3(
        x0 + j % w as int,
        y0 + (j / w as int) % w as int,
        z0 + j / (w as int * w as int),
    )
}

/// Base-`b` digit decomposition: `x + b*y + b*b*z` recovers its three
/// digits, and stays below `b^3`.
pub proof fn lemma_digits3(x: int, y: int, z: int, b: int)
    requires
        1 <= b,
        0 <= x < b,
        0 <= y < b,
        0 <= z < b,
    ensures
        0 <= x + b * y + b * b * z < b * b * b,
        (x + b * y + b * b * z) % b == x,
        ((x + b * y + b * b * z) / b) % b == y,
        (x + b * y + b * b * z) / (b * b) == z,
{
    let n = x + b * y + b * b * z;
    assert(x + b * y + b * b * z == (y + b * z) * b + x) by (nonlinear_arith);
    assert(0 <= y + b * z < b * b) by (nonlinear_arith)
        requires 0 <= y < b && 0 <= z < b;
    vstd::arithmetic::div_mod::lemma_fundamental_div_mod_converse(n, b, y + b * z, x);
    assert(n / b == y + b * z && n % b == x);
    assert(y + b * z == z * b + y) by (nonlinear_arith);
    vstd::arithmetic::div_mod::lemma_fundamental_div_mod_converse(y + b * z, b, z, y);
    assert((n / b) % b == y && (n / b) / b == z);
    vstd::arithmetic::div_mod::lemma_div_denominator(n, b, b);
    assert(n / (b * b) == z);
    assert(n < b * b * b) by (nonlinear_arith)
        requires 0 <= x < b && 0 <= y + b * z < b * b && n == (y + b * z) * b + x;
}

/// The plastic raster index of an in-cube coordinate.
pub open spec fn plastic_index(side: nat, c: Seq<i32>) -> int {
    c[0] + side * c[1] + side * side * c[2]
}

/// A coordinate lies in the plastic cube.
pub open spec fn in_cube(side: nat, c: Seq<i32>) -> bool {
    c.len() == 3 && 0 <= c[0] < side && 0 <= c[1] < side && 0 <= c[2] < side
}

/// Index and coordinate round-trip for in-cube coordinates.
pub proof fn lemma_plastic_index_roundtrip(side: nat, c: Seq<i32>)
    requires
        side >= 1,
        in_cube(side, c),
    ensures
        0 <= plastic_index(side, c) < side * side * side,
        plastic_coord(side, plastic_index(side, c)) =~= c,
{
    lemma_digits3(c[0] as int, c[1] as int, c[2] as int, side as int);
}

/// A raster index is recovered from its coordinate.
pub proof fn lemma_coord_index_roundtrip(side: nat, i: int)
    requires
        1 <= side <= 1625,
        0 <= i < side * side * side,
    ensures
        in_cube(side, plastic_coord(side, i)),
        plastic_index(side, plastic_coord(side, i)) == i,
{
    let s = side as int;
    vstd::arithmetic::div_mod::lemma_mod_bound(i, s);
    vstd::arithmetic::div_mod::lemma_mod_bound(i / s, s);
    vstd::arithmetic::div_mod::lemma_div_pos_is_pos(i, s);
    assert(s * s >= 1 && i < s * (s * s)) by (nonlinear_arith)
        requires s >= 1 && i < s * s * s;
    vstd::arithmetic::div_mod::lemma_div_pos_is_pos(i, s * s);
    lemma_div_below(i, s * s, s);
    vstd::arithmetic::div_mod::lemma_div_denominator(i, s, s);
    vstd::arithmetic::div_mod::lemma_fundamental_div_mod(i, s);
    vstd::arithmetic::div_mod::lemma_fundamental_div_mod(i / s, s);
    let x = i % s;
    let y = (i / s) % s;
    let z = i / (s * s);
    assert(i == x + s * y + s * s * z) by (nonlinear_arith)
        requires
            i == s * (i / s) + x,
            i / s == s * z + y,
    ;
    assert(plastic_coord(side, i)[0] == x);
    assert(plastic_coord(side, i)[1] == y);
    assert(plastic_coord(side, i)[2] == z);
}

/// Every element of an adjacency list names one of the first `k` actuators,
/// and the list holds at most `k` of them.
pub proof fn lemma_spec_adj_elements(side: nat, window: nat, c: Seq<i32>, k: nat)
    requires
        k <= u32::MAX,
    ensures
        forall|i: int|
            0 <= i < spec_adj(side, window, c, k).len()
                ==> 0 <= #[trigger] spec_adj(side, window, c, k)[i] < k,
        spec_adj(side, window, c, k).len() <= k,
    decreases k,
{
    if k > 0 {
        lemma_spec_adj_elements(side, window, c, (k - 1) as nat);
        let prev = spec_adj(side, window, c, (k - 1) as nat);
        let cur = spec_adj(side, window, c, k);
        assert forall|i: int| 0 <= i < cur.len() implies 0 <= #[trigger] cur[i] < k by {
            if in_reg_window(side, window, k - 1, c) {
                assert(cur == prev.push((k - 1) as u32));
                if i < prev.len() {
                    assert(cur[i] == prev[i]);
                } else {
                    assert(cur[i] == (k - 1) as u32);
                }
            } else {
                assert(cur == prev);
            }
        }
    }
}

/// An actuator appears in a coordinate's adjacency list exactly when that
/// coordinate lies in the actuator's registration window: the adjacency
/// registration is symmetric.
pub proof fn lemma_adjacency_symmetry(side: nat, window: nat, c: Seq<i32>, k: nat, a: int)
    requires
        0 <= a < k,
        k <= u32::MAX,
    ensures
        spec_adj(side, window, c, k).contains(a as u32) <==> in_reg_window(side, window, a, c),
    decreases k,
{
    let cur = spec_adj(side, window, c, k);
    let prev = spec_adj(side, window, c, (k - 1) as nat);
    lemma_spec_adj_elements(side, window, c, (k - 1) as nat);
    if a == k - 1 {
        if in_reg_window(side, window, a, c) {
            assert(cur.last() == a as u32);
            assert(cur.contains(a as u32));
        } else {
            assert(forall|i: int| 0 <= i < prev.len() ==> #[trigger] prev[i] < a as u32);
            assert(!cur.contains(a as u32)) by {
                assert(forall|i: int| 0 <= i < cur.len() ==> #[trigger] cur[i] < a as u32);
            }
        }
    } else {
        lemma_adjacency_symmetry(side, window, c, (k - 1) as nat, a);
        if in_reg_window(side, window, k - 1, c) {
            assert(cur == prev.push((k - 1) as u32));
            if prev.contains(a as u32) {
                let i = choose|i: int| 0 <= i < prev.len() && prev[i] == a as u32;
                assert(cur[i] == a as u32);
                assert(cur.contains(a as u32));
            }
            if cur.contains(a as u32) {
                let i = choose|i: int| 0 <= i < cur.len() && cur[i] == a as u32;
                assert(i < prev.len());
                assert(prev.contains(a as u32));
            }
        }
    }
}

/// Pure, stateless-after-construction spatial index over the three families.
pub trait EcpGeometry: Sized {
    /// The structural invariant construction establishes.
    spec fn wf(&self) -> bool;

    /// The plastic coordinates, in enumeration order.
    spec fn spec_plastic_coords(&self) -> Seq<Seq<i32>>;

    /// The actuator coordinates, in enumeration order.
    spec fn spec_actuator_coords(&self) -> Seq<Seq<i32>>;

    /// The sensory coordinates, in enumeration order.
    spec fn spec_sensory_coords(&self) -> Seq<Seq<i32>>;

    /// The fixed out-degree assigned to every plastic and sensory neuron.
    spec fn spec_nearby_count(&self) -> nat;

    /// What `get_nearby_rx_neurons` returns: destination plastic
    /// coordinates, then destination actuator coordinates.
    spec fn spec_nearby(&self, loc: Seq<i32>) -> (Seq<Seq<i32>>, Seq<Seq<i32>>);

    fn get_num_plastic(&self) -> (r: u32)
        requires
            self.wf(),
        ensures
            r == self.spec_plastic_coords().len(),
    ;

    /// How many sensory coordinates the geometry enumerates: the full
    /// sensory grid, side squared.  When the requested sensory population is
    /// not a perfect square this exceeds it, and the network constructor
    /// demands one sensor per enumerated coordinate.
    fn get_num_sensory(&self) -> (r: u32)
        requires
            self.wf(),
        ensures
            r == self.spec_sensory_coords().len(),
    ;

    fn get_num_actuator(&self) -> (r: u32)
        requires
            self.wf(),
        ensures
            r == self.spec_actuator_coords().len(),
    ;

    fn get_nearby_count(&self) -> (r: u32)
        requires
            self.wf(),
        ensures
            r == self.spec_nearby_count(),
    ;

    fn plastic_coord_at(&self, i: usize) -> (r: Vec<i32>)
        requires
            self.wf(),
            i < self.spec_plastic_coords().len(),
        ensures
            r@ == self.spec_plastic_coords()[i as int],
    ;

    fn actuator_coord_at(&self, i: usize) -> (r: Vec<i32>)
        requires
            self.wf(),
            i < self.spec_actuator_coords().len(),
        ensures
            r@ == self.spec_actuator_coords()[i as int],
    ;

    fn sensory_coord_at(&self, i: usize) -> (r: Vec<i32>)
        requires
            self.wf(),
            i < self.spec_sensory_coords().len(),
        ensures
            r@ == self.spec_sensory_coords()[i as int],
    ;

    /// The destinations a plastic or sensory coordinate synapses onto:
    /// plastic destinations first, actuator destinations second.
    fn get_nearby_rx_neurons(&self, loc: &Vec<i32>) -> (r: (Vec<Vec<i32>>, Vec<Vec<i32>>))
        requires
            self.wf(),
            self.spec_plastic_coords().contains(loc@) || self.spec_sensory_coords().contains(loc@),
        ensures
            r.0@.map_values(|v: Vec<i32>| v@) == self.spec_nearby(loc@).0,
            r.1@.map_values(|v: Vec<i32>| v@) == self.spec_nearby(loc@).1,
    ;

    /// Every family enumeration is non-empty, of coordinate triples, and
    /// free of repeats.
    proof fn lemma_families_wf(&self)
        requires
            self.wf(),
        ensures
            self.spec_plastic_coords().len() >= 1,
            self.spec_actuator_coords().len() >= 1,
            self.spec_sensory_coords().len() >= 1,
            forall|i: int, j: int|
                0 <= i < j < self.spec_plastic_coords().len()
                    ==> self.spec_plastic_coords()[i] != self.spec_plastic_coords()[j],
            forall|i: int, j: int|
                0 <= i < j < self.spec_actuator_coords().len()
                    ==> self.spec_actuator_coords()[i] != self.spec_actuator_coords()[j],
            forall|i: int, j: int|
                0 <= i < j < self.spec_sensory_coords().len()
                    ==> self.spec_sensory_coords()[i] != self.spec_sensory_coords()[j],
    ;

    /// Every destination names an existing neuron: plastic destinations are
    /// plastic coordinates, actuator destinations are actuator coordinates,
    /// and a sensory source targets no actuators.  For a plastic source the
    /// two destination counts fill the nearby budget exactly, unless more
    /// actuators than the whole budget are registered adjacent; a sensory
    /// source always gets the whole budget.
    proof fn lemma_nearby_valid(&self, loc: Seq<i32>)
        requires
            self.wf(),
            self.spec_plastic_coords().contains(loc) || self.spec_sensory_coords().contains(loc),
        ensures
            forall|i: int|
                0 <= i < self.spec_nearby(loc).0.len()
                    ==> self.spec_plastic_coords().contains(#[trigger] self.spec_nearby(loc).0[i]),
            forall|i: int|
                0 <= i < self.spec_nearby(loc).1.len()
                    ==> self.spec_actuator_coords().contains(#[trigger] self.spec_nearby(loc).1[i]),
            self.spec_nearby(loc).1.len() <= self.spec_nearby_count()
                ==> self.spec_nearby(loc).0.len() + self.spec_nearby(loc).1.len()
                    == self.spec_nearby_count(),
            self.spec_sensory_coords().contains(loc)
                ==> self.spec_nearby(loc).1.len() == 0
                    && self.spec_nearby(loc).0.len() == self.spec_nearby_count(),
    ;
}

/// Both partial powers of a bounded base are bounded by those of the bound.
pub(crate) proof fn lemma_cube_bounds(s: int, b: int)
    requires
        0 <= s <= b,
    ensures
        s * s <= b * b,
        s * s * s <= b * b * b,
{
    assert(s * s <= b * b && s * s * s <= b * b * b) by (nonlinear_arith)
        requires 0 <= s <= b;
}

/// The cube of a small number.
fn cube_u64(s: u64) -> (r: u64)
    requires
        s <= 1626,
    ensures
        r == s * s * s,
{
    proof {
        lemma_cube_bounds(s as int, 1626);
    }
    s * s * s
}

/// Integer cube root: the largest `r` with `r^3 <= n`.
fn icbrt(n: u64) -> (r: u64)
    requires
        n <= 0x1_0000_0000,
    ensures
        r * r * r <= n,
        (r + 1) * (r + 1) * (r + 1) > n,
        r <= 1625,
{
    let mut s: u64 = 0;
    loop
        invariant_except_break
            n <= 0x1_0000_0000,
            s * s * s <= n,
            s <= 1625,
        ensures
            s * s * s <= n,
            (s + 1) * (s + 1) * (s + 1) > n,
            s <= 1625,
        decreases n - s,
    {
        let c = cube_u64(s + 1);
        if c > n {
            break;
        }
        proof {
            assert(s + 1 <= 1625) by (nonlinear_arith)
                requires (s + 1) * (s + 1) * (s + 1) <= 0x1_0000_0000 && s + 1 >= 1;
            assert(s < n) by (nonlinear_arith)
                requires (s + 1) * (s + 1) * (s + 1) <= n;
        }
        s = s + 1;
    }
    s
}

/// The square of a small number.
fn square_u64(s: u64) -> (r: u64)
    requires
        s <= 0xffff_ffff,
    ensures
        r == s * s,
{
    proof {
        assert(s * s <= 0xffff_ffff * 0xffff_ffffu64) by (nonlinear_arith)
            requires 0 <= s <= 0xffff_ffff;
    }
    s * s
}

/// Integer square-root ceiling: the smallest `r` with `n <= r^2`.
fn isqrt_ceil(n: u32) -> (r: u32)
    ensures
        n <= r * r,
        r >= 1 ==> (r - 1) * (r - 1) < n,
        r >= 1 <==> n >= 1,
        r <= 65536,
{
    let mut s: u32 = 0;
    loop
        invariant_except_break
            s >= 1 ==> (s - 1) * (s - 1) < n,
            s <= 65536,
            s >= 1 ==> n >= 1,
        ensures
            n <= s * s,
            s >= 1 ==> (s - 1) * (s - 1) < n,
            s >= 1 <==> n >= 1,
            s <= 65536,
        decreases n - s,
    {
        let c = square_u64(s as u64);
        if c >= n as u64 {
            break;
        }
        proof {
            assert(s + 1 <= 65536) by (nonlinear_arith)
                requires s * s < n && n <= 0xffff_ffffu32 && s <= 65536;
            assert(s < n) by (nonlinear_arith)
                requires s * s < n;
        }
        s = s + 1;
    }
    s
}

/// A whole number has at most one cube root: two geometries built over the
/// same plastic population share their cube side, and likewise the window.
pub proof fn lemma_cube_root_unique(a: int, b: int, n: int)
    requires
        0 <= a,
        0 <= b,
        a * a * a == n,
        b * b * b == n,
    ensures
        a == b,
{
    assert(a == b) by (nonlinear_arith)
        requires 0 <= a && 0 <= b && a * a * a == b * b * b;
}

/// A whole number has at most one square-root ceiling: two geometries built
/// over the same sensory population share their grid side.
pub proof fn lemma_grid_side_unique(a: int, b: int, n: int)
    requires
        1 <= a,
        1 <= b,
        (a - 1) * (a - 1) < n <= a * a,
        (b - 1) * (b - 1) < n <= b * b,
    ensures
        a == b,
{
    assert(a == b) by (nonlinear_arith)
        requires
            1 <= a && 1 <= b && (a - 1) * (a - 1) < n && n <= a * a && (b - 1) * (b - 1) < n
                && n <= b * b,
    ;
}

/// No whole number between two consecutive cubes is itself a cube.
proof fn lemma_not_cube(n: int, s: int)
    requires
        0 <= s,
        s * s * s <= n,
        (s + 1) * (s + 1) * (s + 1) > n,
        s * s * s != n,
    ensures
        !is_cube(n),
{
    assert forall|r: int| 0 <= r implies #[trigger] (r * r * r) != n by {
        if r <= s {
            assert(r * r * r <= s * s * s) by (nonlinear_arith)
                requires 0 <= r <= s;
        } else {
            assert(r * r * r >= (s + 1) * (s + 1) * (s + 1)) by (nonlinear_arith)
                requires s + 1 <= r;
        }
    }
}

/// The box a window scan covers, corner included.
pub open spec fn in_full_box(x0: int, y0: int, z0: int, w: nat, c: Seq<i32>) -> bool {
    &&& c.len() == 3
    &&& x0 <= c[0] < x0 + w
    &&& y0 <= c[1] < y0 + w
    &&& z0 <= c[2] < z0 + w
}

/// The scan-order position of a box cell.
pub open spec fn scan_of(x0: int, y0: int, z0: int, w: nat, c: Seq<i32>) -> int {
    (c[0] - x0) + w * (c[1] - y0) + w * w * (c[2] - z0)
}

/// A scanned cell lies in the box, sits at its own scan position, and no
/// other box cell shares that position.
proof fn lemma_window_cell_scan(x0: int, y0: int, z0: int, w: nat, j: int)
    requires
        w >= 1,
        0 <= j < w * w * w,
        0 <= x0 && x0 + w <= 0x7fff_ffff,
        0 <= y0 && y0 + w <= 0x7fff_ffff,
        0 <= z0 && z0 + w <= 0x7fff_ffff,
    ensures
        in_full_box(x0, y0, z0, w, window_cell(x0, y0, z0, w, j)),
        scan_of(x0, y0, z0, w, window_cell(x0, y0, z0, w, j)) == j,
{
    let wi = w as int;
    vstd::arithmetic::div_mod::lemma_mod_bound(j, wi);
    vstd::arithmetic::div_mod::lemma_mod_bound(j / wi, wi);
    vstd::arithmetic::div_mod::lemma_div_pos_is_pos(j, wi);
    assert(wi * wi >= 1 && j < wi * (wi * wi)) by (nonlinear_arith)
        requires wi >= 1 && j < wi * wi * wi;
    vstd::arithmetic::div_mod::lemma_div_pos_is_pos(j, wi * wi);
    lemma_div_below(j, wi * wi, wi);
    let x = j % wi;
    let y = (j / wi) % wi;
    let z = j / (wi * wi);
    vstd::arithmetic::div_mod::lemma_div_denominator(j, wi, wi);
    assert(z == (j / wi) / wi);
    vstd::arithmetic::div_mod::lemma_fundamental_div_mod(j, wi);
    vstd::arithmetic::div_mod::lemma_fundamental_div_mod(j / wi, wi);
    assert(j == x + wi * y + wi * wi * z) by (nonlinear_arith)
        requires
            j == wi * (j / wi) + x,
            j / wi == wi * z + y,
    ;
    let c = window_cell(x0, y0, z0, w, j);
    assert(c[0] == x0 + x && c[1] == y0 + y && c[2] == z0 + z);
    assert(scan_of(x0, y0, z0, w, c) == x + wi * y + wi * wi * z);
}

/// A box cell is recovered from its scan position.
proof fn lemma_scan_roundtrip(x0: int, y0: int, z0: int, w: nat, c: Seq<i32>)
    requires
        w >= 1,
        in_full_box(x0, y0, z0, w, c),
    ensures
        0 <= scan_of(x0, y0, z0, w, c) < w * w * w,
        window_cell(x0, y0, z0, w, scan_of(x0, y0, z0, w, c)) =~= c,
{
    lemma_digits3(c[0] - x0, c[1] - y0, c[2] - z0, w as int);
}

/// The fixed-lattice geometry: plastic cube of side `L`, actuator plane at
/// `y = L`, sensory grid at `y = -1`, with the plastic-to-actuator adjacency
/// registration precomputed at construction.
pub struct EcpBox {
    num_plastic: u32,
    num_actuator: u32,
    num_sensory: u32,
    nearby_count: u32,
    plastic_side_length: u32,
    sensory_side_length: u32,
    nearby_side_length: u32,
    plastic_to_actuator_connections: Vec<Vec<u32>>,
}

impl EcpBox {
    /// Shorthand for the fields the specs quote.
    pub closed spec fn side(&self) -> nat {
        self.plastic_side_length as nat
    }

    pub closed spec fn window(&self) -> nat {
        self.nearby_side_length as nat
    }

    pub closed spec fn sensory_side(&self) -> nat {
        self.sensory_side_length as nat
    }

    /// Construct a geometry.  Fails fast with a configuration error when a
    /// population is empty, the plastic population is not a perfect cube,
    /// `nearby_count + 1` is not a perfect cube, or the connection window
    /// would not fit inside the plastic cube.
    pub fn new(num_plastic: u32, num_actuator: u32, num_sensory: u32, nearby_count: u32) -> (r: Result<EcpBox, ConfigError>)
        requires
            num_actuator <= 0x7fff_ffff,
            num_sensory <= 0xfffe_0001,
        ensures
            (r matches Err(e) && e == ConfigError::EmptyPopulation) <==> (num_plastic == 0
                || num_actuator == 0 || num_sensory == 0),
            (r matches Err(e) && e == ConfigError::PlasticNotCube) <==> (num_plastic > 0
                && num_actuator > 0 && num_sensory > 0 && !is_cube(num_plastic as int)),
            (r matches Err(e) && e == ConfigError::NearbyNotCube) <==> (num_plastic > 0
                && num_actuator > 0 && num_sensory > 0 && is_cube(num_plastic as int)
                && !is_cube(nearby_count as int + 1)),
            (r matches Err(e) && e == ConfigError::WindowTooLarge) <==> (num_plastic > 0
                && num_actuator > 0 && num_sensory > 0 && is_cube(num_plastic as int)
                && is_cube(nearby_count as int + 1) && exists|l: int, w: int|
                    0 <= l && 0 <= w && #[trigger] (l * l * l) == num_plastic
                        && #[trigger] (w * w * w) == nearby_count + 1 && w > l),
            r is Ok <==> (num_plastic > 0 && num_actuator > 0 && num_sensory > 0
                && is_cube(num_plastic as int) && is_cube(nearby_count as int + 1)
                && forall|l: int, w: int|
                    0 <= l && 0 <= w && #[trigger] (l * l * l) == num_plastic
                        && #[trigger] (w * w * w) == nearby_count + 1 ==> w <= l),
            r matches Ok(g) ==> {
                &&& g.wf()
                &&& g.spec_plastic_coords().len() == num_plastic
                &&& g.spec_actuator_coords().len() == num_actuator
                &&& g.spec_nearby_count() == nearby_count
                &&& g.side() * g.side() * g.side() == num_plastic
                &&& g.window() * g.window() * g.window() == nearby_count + 1
                &&& g.sensory_side() >= 1
                &&& (g.sensory_side() - 1) * (g.sensory_side() - 1) < num_sensory
                &&& num_sensory <= g.sensory_side() * g.sensory_side()
                &&& g.spec_plastic_coords() == Seq::new(
                    num_plastic as nat,
                    |i: int| plastic_coord(g.side(), i),
                )
                &&& g.spec_actuator_coords() == Seq::new(
                    num_actuator as nat,
                    |i: int| actuator_coord(g.side(), i),
                )
                &&& g.spec_sensory_coords() == Seq::new(
                    g.sensory_side() * g.sensory_side(),
                    |i: int| sensory_coord(g.sensory_side(), i),
                )
                &&& forall|loc: Seq<i32>| #[trigger] g.spec_nearby(loc) == spec_box_nearby(
                    g.side(),
                    g.window(),
                    g.sensory_side(),
                    nearby_count as nat,
                    num_actuator as nat,
                    loc,
                )
            },
    {
        if num_plastic == 0 || num_actuator == 0 || num_sensory == 0 {
            return Err(ConfigError::EmptyPopulation);
        }
        let side64 = icbrt(num_plastic as u64);
        proof {
            lemma_cube_bounds(side64 as int, 1625);
        }
        if side64 * side64 * side64 != num_plastic as u64 {
            proof {
                lemma_not_cube(num_plastic as int, side64 as int);
            }
            return Err(ConfigError::PlasticNotCube);
        }
        let side = side64 as u32;
        let window64 = icbrt(nearby_count as u64 + 1);
        proof {
            lemma_cube_bounds(window64 as int, 1625);
        }
        if window64 * window64 * window64 != nearby_count as u64 + 1 {
            proof {
                lemma_not_cube(nearby_count as int + 1, window64 as int);
            }
            return Err(ConfigError::NearbyNotCube);
        }
        let window = window64 as u32;
        proof {
            assert(window >= 1) by (nonlinear_arith)
                requires window as int * window as int * window as int == nearby_count as int + 1;
            assert(side >= 1) by (nonlinear_arith)
                requires
                    side as int * side as int * side as int == num_plastic as int,
                    num_plastic >= 1,
            ;
        }
        if window > side {
            proof {
                assert(exists|l: int, w: int|
                    0 <= l && 0 <= w && #[trigger] (l * l * l) == num_plastic
                        && #[trigger] (w * w * w) == nearby_count + 1 && w > l) by {
                    assert(0 <= side as int && 0 <= window as int
                        && side as int * side as int * side as int == num_plastic
                        && (window as int * window as int * window as int) == nearby_count + 1
                        && window as int > side as int);
                }
            }
            return Err(ConfigError::WindowTooLarge);
        }
        proof {
            assert forall|l: int, w: int|
                0 <= l && 0 <= w && #[trigger] (l * l * l) == num_plastic
                    && #[trigger] (w * w * w) == nearby_count + 1 implies w <= l by {
                assert(l == side as int) by (nonlinear_arith)
                    requires
                        0 <= l,
                        l * l * l == num_plastic,
                        side as int * side as int * side as int == num_plastic as int,
                        0 <= side as int,
                ;
                assert(w == window as int) by (nonlinear_arith)
                    requires
                        0 <= w,
                        w * w * w == nearby_count as int + 1,
                        window as int * window as int * window as int == nearby_count as int + 1,
                        0 <= window as int,
                ;
            }
        }
        let sensory_side = isqrt_ceil(num_sensory);
        proof {
            assert(sensory_side <= 65535) by (nonlinear_arith)
                requires
                    sensory_side >= 1,
                    (sensory_side - 1) * (sensory_side - 1) < num_sensory,
                    num_sensory <= 0xfffe_0001,
            ;
        }
        let conn = build_adjacency(side, window, num_actuator);
        let g = EcpBox {
            num_plastic,
            num_actuator,
            num_sensory,
            nearby_count,
            plastic_side_length: side,
            sensory_side_length: sensory_side,
            nearby_side_length: window,
            plastic_to_actuator_connections: conn,
        };
        proof {
            assert(g.wf());
        }
        Ok(g)
    }

    /// The first plastic coordinate in enumeration order.
    pub fn first_plastic_loc(&self) -> (r: Vec<i32>)
        requires
            self.wf(),
        ensures
            r@ =~= coord3(0, 0, 0),
    {
        vec![0, 0, 0]
    }

    /// The plastic coordinate that follows `loc`: lexicographic with `x`
    /// fastest, `None` after the cube's far corner.
    pub fn next_plastic_loc(&self, loc: &Vec<i32>) -> (r: Option<Vec<i32>>)
        requires
            self.wf(),
            in_cube(self.side(), loc@),
        ensures
            ({
                let s = self.side() as int;
                let x = loc@[0] as int;
                let y = loc@[1] as int;
                let z = loc@[2] as int;
                if x == s - 1 && y == s - 1 && z == s - 1 {
                    r is None
                } else if x == s - 1 && y == s - 1 {
                    r matches Some(c) && c@ =~= coord3(0, 0, z + 1)
                } else if x == s - 1 {
                    r matches Some(c) && c@ =~= coord3(0, y + 1, z)
                } else {
                    r matches Some(c) && c@ =~= coord3(x + 1, y, z)
                }
            }),
    {
        let x = loc[0];
        let y = loc[1];
        let z = loc[2];
        let plastic_index = self.plastic_side_length as i32 - 1;
        if x == plastic_index && y == plastic_index && z == plastic_index {
            return None;
        }
        if x == plastic_index {
            if y == plastic_index {
                Some(vec![0, 0, z + 1])
            } else {
                Some(vec![0, y + 1, z])
            }
        } else {
            Some(vec![x + 1, y, z])
        }
    }

    /// The first actuator coordinate in enumeration order.
    pub fn first_actuator_loc(&self) -> (r: Vec<i32>)
        requires
            self.wf(),
        ensures
            r@ =~= coord3(0, self.side() as int, 0),
    {
        vec![0, self.plastic_side_length as i32, 0]
    }

    /// The actuator coordinate that follows `loc` in raster order, `None`
    /// once `num_actuator` coordinates have been enumerated.
    pub fn next_actuator_loc(&self, loc: &Vec<i32>) -> (r: Option<Vec<i32>>)
        requires
            self.wf(),
            loc@.len() == 3,
            loc@[1] == self.side() as int,
            0 <= loc@[0] < self.side(),
            0 <= loc@[2],
            loc@[2] as int * self.side() + loc@[0] < self.spec_actuator_coords().len(),
        ensures
            ({
                let s = self.side() as int;
                let x = loc@[0] as int;
                let z = loc@[2] as int;
                if z * s + x + 1 == self.spec_actuator_coords().len() {
                    r is None
                } else if x == s - 1 {
                    r matches Some(c) && c@ =~= coord3(0, s, z + 1)
                } else {
                    r matches Some(c) && c@ =~= coord3(x + 1, s, z)
                }
            }),
    {
        let x = loc[0];
        let y = loc[1];
        let z = loc[2];
        let side = self.plastic_side_length;
        proof {
            assert(loc@[2] as int * side as int <= 0x7fff_ffff - loc@[0]) by (nonlinear_arith)
                requires
                    loc@[2] as int * side as int + loc@[0] < self.num_actuator as int,
                    self.num_actuator <= 0x7fff_ffff,
                    loc@[0] >= 0,
            ;
            assert(loc@[2] as int * side as int >= 0) by (nonlinear_arith)
                requires loc@[2] >= 0 && side as int >= 0;
        }
        if (z * side as i32) + x + 1 == self.num_actuator as i32 {
            return None;
        }
        if x == side as i32 - 1 {
            Some(vec![0, y, z + 1])
        } else {
            Some(vec![x + 1, y, z])
        }
    }

    /// The first sensory coordinate in enumeration order.
    pub fn first_sensory_loc(&self) -> (r: Vec<i32>)
        requires
            self.wf(),
        ensures
            r@ =~= coord3(0, -1, 0),
    {
        vec![0, -1, 0]
    }

    /// The sensory coordinate that follows `loc` in raster order over the
    /// sensory grid, `None` after the grid's far corner.
    pub fn next_sensory_loc(&self, loc: &Vec<i32>) -> (r: Option<Vec<i32>>)
        requires
            self.wf(),
            loc@.len() == 3,
            loc@[1] == -1,
            0 <= loc@[0] < self.sensory_side(),
            0 <= loc@[2] < self.sensory_side(),
        ensures
            ({
                let s = self.sensory_side() as int;
                let x = loc@[0] as int;
                let z = loc@[2] as int;
                if x == s - 1 && z == s - 1 {
                    r is None
                } else if x == s - 1 {
                    r matches Some(c) && c@ =~= coord3(0, -1, z + 1)
                } else {
                    r matches Some(c) && c@ =~= coord3(x + 1, -1, z)
                }
            }),
    {
        let x = loc[0];
        let y = loc[1];
        let z = loc[2];
        let sensor_index = self.sensory_side_length as i32 - 1;
        if x == sensor_index && z == sensor_index {
            return None;
        }
        if x == sensor_index {
            Some(vec![0, y, z + 1])
        } else {
            Some(vec![x + 1, y, z])
        }
    }
}

/// Register, for every actuator in raster order, every plastic coordinate of
/// its window as adjacent to it.  Row `p` of the result lists, in order, the
/// actuators whose window holds plastic coordinate `p`.
#[verifier::rlimit(60)]
fn build_adjacency(side: u32, window: u32, num_actuator: u32) -> (r: Vec<Vec<u32>>)
    requires
        1 <= window <= side,
        side as int * side as int * side as int <= 0xffff_ffff,
        1 <= num_actuator,
    ensures
        r@.len() == side as int * side as int * side as int,
        forall|p: int| 0 <= p < r@.len()
            ==> #[trigger] r@[p]@ == spec_adj(
                side as nat,
                window as nat,
                plastic_coord(side as nat, p),
                num_actuator as nat,
            ),
{
    proof {
        assert(side as int * side as int >= side as int && side as int * side as int * side as int
            >= side as int * side as int) by (nonlinear_arith)
            requires side >= 1;
        assert(side <= 1625) by (nonlinear_arith)
            requires
                side as int * side as int * side as int <= 0xffff_ffff,
                side >= 1,
        ;
        lemma_cube_bounds(side as int, 1625);
    }
    let total = (side as u64 * side as u64 * side as u64) as u32;
    let mut conn: Vec<Vec<u32>> = Vec::new();
    let mut p: u32 = 0;
    while p < total
        invariant
            total == side as int * side as int * side as int,
            conn@.len() == p,
            p <= total,
            forall|q: int| 0 <= q < p ==> #[trigger] conn@[q]@ == Seq::<u32>::empty(),
        decreases total - p,
    {
        conn.push(Vec::new());
        p = p + 1;
    }
    let wside = window as u64;
    proof {
        lemma_cube_bounds(wside as int, 1625);
        assert(wside * wside * wside >= 1) by (nonlinear_arith)
            requires wside >= 1;
    }
    let wcells = (wside * wside * wside - 1) as u32;
    let mut a: u32 = 0;
    while a < num_actuator
        invariant
            1 <= window <= side <= 1625,
            total == side as int * side as int * side as int,
            total <= 0xffff_ffff,
            wcells == window as int * window as int * window as int - 1,
            a <= num_actuator,
            conn@.len() == total,
            forall|q: int| 0 <= q < total
                ==> #[trigger] conn@[q]@ == spec_adj(
                    side as nat,
                    window as nat,
                    plastic_coord(side as nat, q),
                    a as nat,
                ),
        decreases num_actuator - a,
    {
        let ghost base = Seq::new(total as nat, |q: int| conn@[q]@);
        let ax = a % side;
        let az = a / side;
        let half = window / 2;
        let x0: u32 = clamp_exec(ax, half, side, window);
        let z0: u32 = clamp_exec(az, half, side, window);
        let y0: u32 = side - window;
        proof {
            assert(x0 == reg_x0(side as nat, window as nat, a as int));
            assert(z0 == reg_z0(side as nat, window as nat, a as int));
        }
        let mut j: u32 = 0;
        while j < wcells
            invariant
                1 <= window <= side <= 1625,
                total == side as int * side as int * side as int,
                total <= 0xffff_ffff,
                wcells == window as int * window as int * window as int - 1,
                j <= wcells,
                a < num_actuator,
                x0 == reg_x0(side as nat, window as nat, a as int),
                z0 == reg_z0(side as nat, window as nat, a as int),
                y0 == side - window,
                x0 + window <= side,
                z0 + window <= side,
                conn@.len() == total,
                base.len() == total,
                forall|q: int| 0 <= q < total ==> #[trigger] base[q] == spec_adj(
                    side as nat,
                    window as nat,
                    plastic_coord(side as nat, q),
                    a as nat,
                ),
                forall|q: int| 0 <= q < total
                    ==> #[trigger] conn@[q]@ == (if in_full_box(
                        x0 as int,
                        y0 as int,
                        z0 as int,
                        window as nat,
                        plastic_coord(side as nat, q),
                    ) && scan_of(
                        x0 as int,
                        y0 as int,
                        z0 as int,
                        window as nat,
                        plastic_coord(side as nat, q),
                    ) < j {
                        base[q].push(a)
                    } else {
                        base[q]
                    }),
            decreases wcells - j,
        {
            let (x, y, z) = scan_digits(j, window);
            proof {
                lemma_window_cell_scan(x0 as int, y0 as int, z0 as int, window as nat, j as int);
            }
            let px = x0 + x;
            let py = y0 + y;
            let pz = z0 + z;
            let ghost cell = window_cell(x0 as int, y0 as int, z0 as int, window as nat, j as int);
            proof {
                assert(cell[0] == px && cell[1] == py && cell[2] == pz);
                assert(in_cube(side as nat, cell));
                lemma_plastic_index_roundtrip(side as nat, cell);
                lemma_cube_bounds(side as int, 1625);
                assert(side as int * py as int <= 1625 * 1625) by (nonlinear_arith)
                    requires side <= 1625 && py <= 1625;
                assert(side as int * side as int * pz as int <= 1625 * 1625 * 1625)
                    by (nonlinear_arith)
                    requires side <= 1625 && pz <= 1625;
            }
            let pidx = (px as u64 + side as u64 * py as u64
                + side as u64 * side as u64 * pz as u64) as usize;
            proof {
                assert(pidx == plastic_index(side as nat, cell));
            }
            let row = &mut conn[pidx];
            row.push(a);
            proof {
                let sn = side as nat;
                let wn = window as nat;
                assert(conn@[pidx as int]@ == base[pidx as int].push(a));
                assert(scan_of(x0 as int, y0 as int, z0 as int, wn, cell) == j);
                assert forall|q: int| 0 <= q < total implies #[trigger] conn@[q]@ == (if in_full_box(
                    x0 as int,
                    y0 as int,
                    z0 as int,
                    wn,
                    plastic_coord(sn, q),
                ) && scan_of(x0 as int, y0 as int, z0 as int, wn, plastic_coord(sn, q)) < j + 1 {
                    base[q].push(a)
                } else {
                    base[q]
                }) by {
                    let c = plastic_coord(sn, q);
                    if q != pidx as int {
                        assert(conn@[q]@ == old_row_value(base, q, x0 as int, y0 as int, z0 as int, wn, sn, j as int, a));
                        if in_full_box(x0 as int, y0 as int, z0 as int, wn, c)
                            && scan_of(x0 as int, y0 as int, z0 as int, wn, c) == j {
                            lemma_scan_roundtrip(x0 as int, y0 as int, z0 as int, wn, c);
                            assert(c =~= cell);
                            lemma_coord_index_roundtrip(sn, q);
                            assert(q == plastic_index(sn, c));
                            assert(false);
                        }
                    }
                }
            }
            j = j + 1;
        }
        proof {
            let sn = side as nat;
            let wn = window as nat;
            assert forall|q: int| 0 <= q < total implies #[trigger] conn@[q]@ == spec_adj(
                sn,
                wn,
                plastic_coord(sn, q),
                (a + 1) as nat,
            ) by {
                let c = plastic_coord(sn, q);
                if in_full_box(x0 as int, y0 as int, z0 as int, wn, c) {
                    lemma_scan_roundtrip(x0 as int, y0 as int, z0 as int, wn, c);
                    lemma_corner_cell(x0 as int, y0 as int, z0 as int, wn);
                    let corner = coord3(x0 + wn - 1, y0 + wn - 1, z0 + wn - 1);
                    lemma_scan_roundtrip(x0 as int, y0 as int, z0 as int, wn, corner);
                    assert(scan_of(x0 as int, y0 as int, z0 as int, wn, corner)
                        == wn * wn * wn - 1) by (nonlinear_arith)
                        requires
                            scan_of(x0 as int, y0 as int, z0 as int, wn, corner)
                                == (wn - 1) + wn * (wn - 1) + wn * wn * (wn - 1),
                    ;
                    let s = scan_of(x0 as int, y0 as int, z0 as int, wn, c);
                    assert(0 <= s < wn * wn * wn);
                    if s == wn * wn * wn - 1 {
                        assert(c =~= window_cell(x0 as int, y0 as int, z0 as int, wn, s));
                        assert(corner =~= window_cell(x0 as int, y0 as int, z0 as int, wn, s));
                        assert(c == corner);
                        assert(!in_reg_window(sn, wn, a as int, c));
                    } else {
                        assert(c != corner);
                        assert(in_reg_window(sn, wn, a as int, c));
                    }
                } else {
                    assert(!in_reg_window(sn, wn, a as int, c));
                }
            }
        }
        a = a + 1;
    }
    conn
}

/// In proofs of the registration loop: the row value the invariant assigns.
spec fn old_row_value(base: Seq<Seq<u32>>, q: int, x0: int, y0: int, z0: int, w: nat, side: nat, j: int, a: u32) -> Seq<u32> {
    if in_full_box(x0, y0, z0, w, plastic_coord(side, q))
        && scan_of(x0, y0, z0, w, plastic_coord(side, q)) < j {
        base[q].push(a)
    } else {
        base[q]
    }
}

/// The final scan position of a window is its far corner, the one cell the
/// window omits.
proof fn lemma_corner_cell(x0: int, y0: int, z0: int, w: nat)
    requires
        w >= 1,
    ensures
        window_cell(x0, y0, z0, w, w * w * w - 1) =~= coord3(x0 + w - 1, y0 + w - 1, z0 + w - 1),
{
    lemma_digits3(w - 1, w - 1, w - 1, w as int);
    assert((w - 1) + w * (w - 1) + w * w * (w - 1) == w * w * w - 1) by (nonlinear_arith);
}

/// Clamped window origin on one axis.
fn clamp_exec(v: u32, half: u32, side: u32, window: u32) -> (r: u32)
    requires
        half < window <= side,
    ensures
        r == clamp_origin(v as int - half as int, side as nat, window as nat),
{
    if v < half {
        0
    } else if v - half > side - window {
        side - window
    } else {
        v - half
    }
}

impl EcpGeometry for EcpBox {
    closed spec fn wf(&self) -> bool {
        &&& 1 <= self.window() <= self.side() <= 1625
        &&& self.side() * self.side() * self.side() == self.num_plastic
        &&& self.window() * self.window() * self.window() == self.nearby_count as int + 1
        &&& 1 <= self.num_actuator <= 0x7fff_ffff
        &&& 1 <= self.num_sensory
        &&& 1 <= self.sensory_side() <= 65535
        &&& (self.sensory_side() - 1) * (self.sensory_side() - 1) < self.num_sensory
        &&& self.num_sensory <= self.sensory_side() * self.sensory_side()
        &&& self.plastic_to_actuator_connections@.len() == self.num_plastic
        &&& forall|p: int| 0 <= p < self.num_plastic
            ==> #[trigger] self.plastic_to_actuator_connections@[p]@ == spec_adj(
                self.side(),
                self.window(),
                plastic_coord(self.side(), p),
                self.num_actuator as nat,
            )
    }

    closed spec fn spec_plastic_coords(&self) -> Seq<Seq<i32>> {
        Seq::new(self.num_plastic as nat, |i: int| plastic_coord(self.side(), i))
    }

    closed spec fn spec_actuator_coords(&self) -> Seq<Seq<i32>> {
        Seq::new(self.num_actuator as nat, |i: int| actuator_coord(self.side(), i))
    }

    closed spec fn spec_sensory_coords(&self) -> Seq<Seq<i32>> {
        Seq::new(
            self.sensory_side() * self.sensory_side(),
            |i: int| sensory_coord(self.sensory_side(), i),
        )
    }

    closed spec fn spec_nearby_count(&self) -> nat {
        self.nearby_count as nat
    }

    closed spec fn spec_nearby(&self, loc: Seq<i32>) -> (Seq<Seq<i32>>, Seq<Seq<i32>>) {
        spec_box_nearby(
            self.side(),
            self.window(),
            self.sensory_side(),
            self.nearby_count as nat,
            self.num_actuator as nat,
            loc,
        )
    }

    fn get_num_plastic(&self) -> (r: u32) {
        self.num_plastic
    }

    fn get_num_sensory(&self) -> (r: u32) {
        proof {
            assert(self.sensory_side() * self.sensory_side() <= 65535 * 65535)
                by (nonlinear_arith)
                requires self.sensory_side() <= 65535;
        }
        self.sensory_side_length * self.sensory_side_length
    }

    fn get_num_actuator(&self) -> (r: u32) {
        self.num_actuator
    }

    fn get_nearby_count(&self) -> (r: u32) {
        self.nearby_count
    }

    fn plastic_coord_at(&self, i: usize) -> (r: Vec<i32>) {
        let side = self.plastic_side_length;
        proof {
            let ii = i as int;
            let s = side as int;
            vstd::arithmetic::div_mod::lemma_mod_bound(ii, s);
            vstd::arithmetic::div_mod::lemma_mod_bound(ii / s, s);
            vstd::arithmetic::div_mod::lemma_div_pos_is_pos(ii, s);
            assert(s * s >= 1 && ii < s * (s * s)) by (nonlinear_arith)
                requires s >= 1 && ii < s * s * s;
            vstd::arithmetic::div_mod::lemma_div_pos_is_pos(ii, s * s);
            lemma_div_below(ii, s * s, s);
            lemma_cube_bounds(s, 1625);
        }
        let i64_ = i as u64;
        let x = (i64_ % side as u64) as u32;
        let y = ((i64_ / side as u64) % side as u64) as u32;
        let z = (i64_ / (side as u64 * side as u64)) as u32;
        let r = vec![x as i32, y as i32, z as i32];
        proof {
            assert(r@ =~= plastic_coord(self.side(), i as int));
        }
        r
    }

    fn actuator_coord_at(&self, i: usize) -> (r: Vec<i32>) {
        let side = self.plastic_side_length;
        proof {
            let ii = i as int;
            let s = side as int;
            vstd::arithmetic::div_mod::lemma_mod_bound(ii, s);
            vstd::arithmetic::div_mod::lemma_div_pos_is_pos(ii, s);
            vstd::arithmetic::div_mod::lemma_div_is_ordered_by_denominator(ii, 1, s);
            vstd::arithmetic::div_mod::lemma_div_basics(ii);
        }
        let i64_ = i as u64;
        let x = (i64_ % side as u64) as u32;
        let z = (i64_ / side as u64) as u32;
        let r = vec![x as i32, side as i32, z as i32];
        proof {
            assert(r@ =~= actuator_coord(self.side(), i as int));
        }
        r
    }

    fn sensory_coord_at(&self, i: usize) -> (r: Vec<i32>) {
        let side = self.sensory_side_length;
        proof {
            let ii = i as int;
            let s = side as int;
            vstd::arithmetic::div_mod::lemma_mod_bound(ii, s);
            vstd::arithmetic::div_mod::lemma_div_pos_is_pos(ii, s);
            lemma_div_below(ii, s, s);
        }
        let i64_ = i as u64;
        let x = (i64_ % side as u64) as u32;
        let z = (i64_ / side as u64) as u32;
        let r = vec![x as i32, -1, z as i32];
        proof {
            assert(r@ =~= sensory_coord(self.sensory_side(), i as int));
        }
        r
    }

    #[verifier::rlimit(60)]
    fn get_nearby_rx_neurons(&self, loc: &Vec<i32>) -> (r: (Vec<Vec<i32>>, Vec<Vec<i32>>)) {
        proof {
            lemma_member_coord_shape(self, loc@);
        }
        let side = self.plastic_side_length;
        let window = self.nearby_side_length;
        let lx = loc[0];
        let ly = loc[1];
        let lz = loc[2];
        if ly < 0 {
            // A sensory source: rescale the coordinate from sensor-grid
            // space into plastic-grid space and take the whole window.
            let sside = self.sensory_side_length;
            proof {
                let s = sside as int;
                let sw = self.side() - self.window();
                assert(0 <= sw * lx && sw * lx <= sw * s && sw * lx <= 1625 * 65535)
                    by (nonlinear_arith)
                    requires 0 <= sw <= 1625 && 0 <= lx <= s && s <= 65535;
                lemma_div_at_most(sw * lx, s, sw);
                assert(0 <= sw * lz && sw * lz <= sw * s && sw * lz <= 1625 * 65535)
                    by (nonlinear_arith)
                    requires 0 <= sw <= 1625 && 0 <= lz <= s && s <= 65535;
                lemma_div_at_most(sw * lz, s, sw);
                assert(self.spec_nearby_count() as int
                    == self.window() * self.window() * self.window() - 1);
            }
            let x0 = ((side - window) as u64 * lx as u64 / sside as u64) as u32;
            let z0 = ((side - window) as u64 * lz as u64 / sside as u64) as u32;
            let cells = scan_cells(x0, 0, z0, window, 0, self.nearby_count);
            proof {
                assert(cells@.map_values(|v: Vec<i32>| v@) =~= self.spec_nearby(loc@).0);
                assert(Seq::<Vec<i32>>::empty().map_values(|v: Vec<i32>| v@)
                    =~= self.spec_nearby(loc@).1);
            }
            (cells, Vec::new())
        } else {
            // A plastic source: actuators registered adjacent come first,
            // then window cells, skipping as many as the actuators consumed.
            let half = window / 2;
            proof {
                lemma_plastic_index_roundtrip(self.side(), loc@);
                lemma_cube_bounds(side as int, 1625);
                assert(side as int * ly as int <= 1625 * 1625) by (nonlinear_arith)
                    requires side <= 1625 && 0 <= ly <= 1625;
                assert(side as int * side as int * lz as int <= 1625 * 1625 * 1625)
                    by (nonlinear_arith)
                    requires side <= 1625 && 0 <= lz <= 1625;
            }
            let pidx = (lx as u64 + side as u64 * ly as u64
                + side as u64 * side as u64 * lz as u64) as usize;
            let row = &self.plastic_to_actuator_connections[pidx];
            proof {
                lemma_spec_adj_elements(self.side(), self.window(), loc@, self.num_actuator as nat);
            }
            let ghost adj = spec_adj(self.side(), self.window(), loc@, self.num_actuator as nat);
            let mut actuators: Vec<Vec<i32>> = Vec::new();
            let mut k: usize = 0;
            while k < row.len()
                invariant
                    self.wf(),
                    side == self.plastic_side_length,
                    1 <= side <= 1625,
                    row == self.plastic_to_actuator_connections@[pidx as int],
                    pidx < self.plastic_to_actuator_connections@.len(),
                    row@ == adj,
                    forall|i: int| 0 <= i < adj.len() ==> 0 <= #[trigger] adj[i] < self.num_actuator,
                    k <= adj.len(),
                    actuators@.len() == k,
                    forall|i: int| 0 <= i < k
                        ==> #[trigger] actuators@[i]@ == actuator_coord(self.side(), adj[i] as int),
                decreases row@.len() - k,
            {
                let a = row[k];
                let ax = a % side;
                let az = a / side;
                proof {
                    vstd::arithmetic::div_mod::lemma_mod_bound(a as int, side as int);
                    vstd::arithmetic::div_mod::lemma_div_pos_is_pos(a as int, side as int);
                    vstd::arithmetic::div_mod::lemma_div_is_ordered_by_denominator(a as int, 1, side as int);
                    vstd::arithmetic::div_mod::lemma_div_basics(a as int);
                }
                let c = vec![ax as i32, side as i32, az as i32];
                proof {
                    assert(c@ =~= actuator_coord(self.side(), a as int));
                }
                actuators.push(c);
                k = k + 1;
            }
            let na = row.len();
            proof {
                assert(adj.len() <= self.num_actuator);
                assert(self.spec_nearby_count() as int
                    == self.window() * self.window() * self.window() - 1);
            }
            let nearby = self.nearby_count;
            let budget: u32 = if na as u64 >= nearby as u64 {
                0
            } else {
                nearby - na as u32
            };
            let x0 = clamp_exec(lx as u32, half, side, window);
            let y0 = clamp_exec(ly as u32, half, side, window);
            let z0 = clamp_exec(lz as u32, half, side, window);
            let cells = scan_cells(x0, y0, z0, window, if budget > 0 { na as u32 } else { 0 }, budget);
            proof {
                assert(cells@.map_values(|v: Vec<i32>| v@) =~= self.spec_nearby(loc@).0);
                assert(actuators@.map_values(|v: Vec<i32>| v@) =~= self.spec_nearby(loc@).1);
            }
            (cells, actuators)
        }
    }

    proof fn lemma_families_wf(&self) {
        let side = self.side();
        let sside = self.sensory_side();
        assert(self.num_plastic >= 1) by (nonlinear_arith)
            requires
                side * side * side == self.num_plastic,
                side >= 1,
        ;
        assert(sside * sside >= 1) by (nonlinear_arith)
            requires sside >= 1;
        assert forall|i: int, j: int|
            0 <= i < j < self.spec_plastic_coords().len()
                implies self.spec_plastic_coords()[i] != self.spec_plastic_coords()[j] by {
            lemma_raster3_injective(side, i, j);
        }
        assert forall|i: int, j: int|
            0 <= i < j < self.spec_actuator_coords().len()
                implies self.spec_actuator_coords()[i] != self.spec_actuator_coords()[j] by {
            lemma_raster2_injective(side, i, j);
        }
        assert forall|i: int, j: int|
            0 <= i < j < self.spec_sensory_coords().len()
                implies self.spec_sensory_coords()[i] != self.spec_sensory_coords()[j] by {
            assert(j < sside * sside <= 65535 * 65535) by (nonlinear_arith)
                requires j < sside * sside && sside <= 65535;
            lemma_raster2_injective(sside, i, j);
        }
    }

    proof fn lemma_nearby_valid(&self, loc: Seq<i32>) {
        lemma_member_coord_shape(self, loc);
        let side = self.side();
        let w = self.window();
        let half = w as int / 2;
        let near = self.spec_nearby(loc);
        if loc[1] < 0 {
            let sside = self.sensory_side() as int;
            let sw = side - w;
            let x0 = sw * loc[0] / sside;
            let z0 = sw * loc[2] / sside;
            assert(0 <= sw * loc[0]) by (nonlinear_arith)
                requires 0 <= sw && 0 <= loc[0];
            assert(sw * loc[0] <= sw * sside) by (nonlinear_arith)
                requires 0 <= sw && 0 <= loc[0] <= sside;
            lemma_div_at_most(sw * loc[0], sside, sw);
            assert(0 <= sw * loc[2]) by (nonlinear_arith)
                requires 0 <= sw && 0 <= loc[2];
            assert(sw * loc[2] <= sw * sside) by (nonlinear_arith)
                requires 0 <= sw && 0 <= loc[2] <= sside;
            lemma_div_at_most(sw * loc[2], sside, sw);
            assert forall|i: int| 0 <= i < near.0.len()
                implies self.spec_plastic_coords().contains(#[trigger] near.0[i]) by {
                lemma_window_cell_in_cube(self, x0, 0, z0, i);
            }
        } else {
            let adj = spec_adj(side, w, loc, self.num_actuator as nat);
            let x0 = clamp_origin(loc[0] - half, side, w);
            let y0 = clamp_origin(loc[1] - half, side, w);
            let z0 = clamp_origin(loc[2] - half, side, w);
            lemma_spec_adj_elements(side, w, loc, self.num_actuator as nat);
            assert forall|i: int| 0 <= i < near.0.len()
                implies self.spec_plastic_coords().contains(#[trigger] near.0[i]) by {
                lemma_window_cell_in_cube(self, x0, y0, z0, i + adj.len());
            }
            assert forall|i: int| 0 <= i < near.1.len()
                implies self.spec_actuator_coords().contains(#[trigger] near.1[i]) by {
                assert(near.1[i] == actuator_coord(side, adj[i] as int));
                assert(self.spec_actuator_coords()[adj[i] as int] == near.1[i]);
            }
        }
    }
}

/// Raster enumerations over three and two axes never repeat a coordinate.
proof fn lemma_raster3_injective(side: nat, i: int, j: int)
    requires
        1 <= side <= 1625,
        0 <= i < j < side * side * side,
    ensures
        plastic_coord(side, i) != plastic_coord(side, j),
{
    let s = side as int;
    assert(s * s >= 1 && i < s * (s * s) && j < s * (s * s)) by (nonlinear_arith)
        requires s >= 1 && i < s * s * s && j < s * s * s;
    vstd::arithmetic::div_mod::lemma_div_pos_is_pos(i, s * s);
    vstd::arithmetic::div_mod::lemma_div_pos_is_pos(j, s * s);
    lemma_div_below(i, s * s, s);
    lemma_div_below(j, s * s, s);
    vstd::arithmetic::div_mod::lemma_fundamental_div_mod(i, s);
    vstd::arithmetic::div_mod::lemma_fundamental_div_mod(j, s);
    vstd::arithmetic::div_mod::lemma_fundamental_div_mod(i / s, s);
    vstd::arithmetic::div_mod::lemma_fundamental_div_mod(j / s, s);
    vstd::arithmetic::div_mod::lemma_div_denominator(i, s, s);
    vstd::arithmetic::div_mod::lemma_div_denominator(j, s, s);
    if plastic_coord(side, i) == plastic_coord(side, j) {
        assert(plastic_coord(side, i)[0] == plastic_coord(side, j)[0]);
        assert(plastic_coord(side, i)[1] == plastic_coord(side, j)[1]);
        assert(plastic_coord(side, i)[2] == plastic_coord(side, j)[2]);
        vstd::arithmetic::div_mod::lemma_mod_bound(i, s);
        vstd::arithmetic::div_mod::lemma_mod_bound(j, s);
        vstd::arithmetic::div_mod::lemma_mod_bound(i / s, s);
        vstd::arithmetic::div_mod::lemma_mod_bound(j / s, s);
        assert(i % s <= i32::MAX && j % s <= i32::MAX && i % s == j % s);
        assert(i == j) by (nonlinear_arith)
            requires
                i == s * (i / s) + i % s,
                j == s * (j / s) + j % s,
                i / s == s * ((i / s) / s) + (i / s) % s,
                j / s == s * ((j / s) / s) + (j / s) % s,
                i % s == j % s,
                (i / s) % s == (j / s) % s,
                (i / s) / s == (j / s) / s,
        ;
    }
}

proof fn lemma_raster2_injective(side: nat, i: int, j: int)
    requires
        1 <= side <= 65535,
        0 <= i < j,
        j <= 0x7fff_ffff || j < side * side,
    ensures
        actuator_coord(side, i) != actuator_coord(side, j),
        sensory_coord(side, i) != sensory_coord(side, j),
{
    let s = side as int;
    vstd::arithmetic::div_mod::lemma_div_pos_is_pos(i, s);
    vstd::arithmetic::div_mod::lemma_div_pos_is_pos(j, s);
    vstd::arithmetic::div_mod::lemma_div_is_ordered_by_denominator(i, 1, s);
    vstd::arithmetic::div_mod::lemma_div_is_ordered_by_denominator(j, 1, s);
    vstd::arithmetic::div_mod::lemma_div_basics(i);
    vstd::arithmetic::div_mod::lemma_div_basics(j);
    if j < s * s {
        lemma_div_below(i, s, s);
        lemma_div_below(j, s, s);
    }
    vstd::arithmetic::div_mod::lemma_fundamental_div_mod(i, s);
    vstd::arithmetic::div_mod::lemma_fundamental_div_mod(j, s);
    if actuator_coord(side, i) == actuator_coord(side, j) || sensory_coord(side, i)
        == sensory_coord(side, j) {
        vstd::arithmetic::div_mod::lemma_mod_bound(i, s);
        vstd::arithmetic::div_mod::lemma_mod_bound(j, s);
        assert(i % s == j % s && i / s == j / s);
        assert(i == j) by (nonlinear_arith)
            requires
                i == s * (i / s) + i % s,
                j == s * (j / s) + j % s,
                i % s == j % s,
                i / s == j / s,
        ;
    }
}

/// A coordinate that is a member of a family has the family's shape: three
/// axes, in range, with the family's `y` value.
proof fn lemma_member_coord_shape(g: &EcpBox, loc: Seq<i32>)
    requires
        g.wf(),
        g.spec_plastic_coords().contains(loc) || g.spec_sensory_coords().contains(loc),
    ensures
        loc.len() == 3,
        loc[1] < 0 ==> {
            &&& loc[1] == -1
            &&& 0 <= loc[0] < g.sensory_side()
            &&& 0 <= loc[2] < g.sensory_side()
            &&& g.spec_sensory_coords().contains(loc)
        },
        loc[1] >= 0 ==> {
            &&& in_cube(g.side(), loc)
            &&& g.spec_plastic_coords().contains(loc)
            &&& plastic_index(g.side(), loc) < g.spec_plastic_coords().len()
        },
{
    if g.spec_plastic_coords().contains(loc) {
        let i = choose|i: int|
            0 <= i < g.spec_plastic_coords().len() && g.spec_plastic_coords()[i] == loc;
        let s = g.side() as int;
        vstd::arithmetic::div_mod::lemma_mod_bound(i, s);
        vstd::arithmetic::div_mod::lemma_mod_bound(i / s, s);
        vstd::arithmetic::div_mod::lemma_div_pos_is_pos(i, s);
        assert(s * s >= 1) by (nonlinear_arith)
            requires s >= 1;
        vstd::arithmetic::div_mod::lemma_div_pos_is_pos(i, s * s);
        assert(i < s * (s * s)) by (nonlinear_arith)
            requires i < s * s * s;
        lemma_div_below(i, s * s, s);
        assert(in_cube(g.side(), loc));
        lemma_plastic_index_roundtrip(g.side(), loc);
        assert(plastic_index(g.side(), loc) < g.spec_plastic_coords().len()) by (nonlinear_arith)
            requires
                plastic_index(g.side(), loc) < s * s * s,
                g.spec_plastic_coords().len() == s * s * s,
        ;
    } else {
        let i = choose|i: int|
            0 <= i < g.spec_sensory_coords().len() && g.spec_sensory_coords()[i] == loc;
        let s = g.sensory_side() as int;
        vstd::arithmetic::div_mod::lemma_mod_bound(i, s);
        vstd::arithmetic::div_mod::lemma_div_pos_is_pos(i, s);
        lemma_div_below(i, s, s);
    }
}

/// A window whose origin respects the clamping lies inside the plastic
/// cube, so each of its cells is a plastic coordinate.
proof fn lemma_window_cell_in_cube(g: &EcpBox, x0: int, y0: int, z0: int, j: int)
    requires
        g.wf(),
        0 <= x0 <= g.side() - g.window(),
        0 <= y0 <= g.side() - g.window(),
        0 <= z0 <= g.side() - g.window(),
        0 <= j < g.window() * g.window() * g.window(),
    ensures
        g.spec_plastic_coords().contains(window_cell(x0, y0, z0, g.window(), j)),
{
    let w = g.window();
    let s = g.side();
    lemma_window_cell_scan(x0, y0, z0, w, j);
    let c = window_cell(x0, y0, z0, w, j);
    assert(in_cube(s, c));
    lemma_plastic_index_roundtrip(s, c);
    assert(plastic_index(s, c) < s * s * s);
    assert(g.spec_plastic_coords()[plastic_index(s, c)] == c);
    assert(g.spec_plastic_coords().contains(c));
}

/// The three scan digits of position `j` in a `w`-sided window.
fn scan_digits(j: u32, w: u32) -> (r: (u32, u32, u32))
    requires
        1 <= w <= 1625,
        (j as int) < w as int * w as int * w as int,
    ensures
        r.0 == j as int % (w as int),
        r.1 == (j as int / w as int) % (w as int),
        r.2 == j as int / (w as int * w as int),
        r.0 < w,
        r.1 < w,
        r.2 < w,
{
    proof {
        let wi = w as int;
        let ji = j as int;
        vstd::arithmetic::div_mod::lemma_mod_bound(ji, wi);
        vstd::arithmetic::div_mod::lemma_mod_bound(ji / wi, wi);
        vstd::arithmetic::div_mod::lemma_div_pos_is_pos(ji, wi);
        assert(wi * wi >= 1 && ji < wi * (wi * wi) && wi * wi <= 1625 * 1625) by (nonlinear_arith)
            requires 1 <= wi <= 1625 && ji < wi * wi * wi;
        vstd::arithmetic::div_mod::lemma_div_pos_is_pos(ji, wi * wi);
        lemma_div_below(ji, wi * wi, wi);
    }
    (j % w, (j / w) % w, j / (w * w))
}

/// Emit `count` window cells in scan order, starting at scan position
/// `start`.
fn scan_cells(x0: u32, y0: u32, z0: u32, window: u32, start: u32, count: u32) -> (r: Vec<Vec<i32>>)
    requires
        1 <= window <= 1625,
        x0 as int + window as int <= 1625,
        y0 as int + window as int <= 1625,
        z0 as int + window as int <= 1625,
        count > 0 ==> start as int + count as int
            <= window as int * window as int * window as int,
    ensures
        r@.len() == count,
        forall|i: int| 0 <= i < count
            ==> #[trigger] r@[i]@ == window_cell(
                x0 as int,
                y0 as int,
                z0 as int,
                window as nat,
                i + start,
            ),
{
    let mut out: Vec<Vec<i32>> = Vec::new();
    let mut i: u32 = 0;
    while i < count
        invariant
            1 <= window <= 1625,
            x0 as int + window as int <= 1625,
            y0 as int + window as int <= 1625,
            z0 as int + window as int <= 1625,
            count > 0 ==> start as int + count as int
                <= window as int * window as int * window as int,
            i <= count,
            out@.len() == i,
            forall|k: int| 0 <= k < i
                ==> #[trigger] out@[k]@ == window_cell(
                    x0 as int,
                    y0 as int,
                    z0 as int,
                    window as nat,
                    k + start,
                ),
        decreases count - i,
    {
        proof {
            assert(window as int * window as int * window as int <= 1625 * 1625 * 1625)
                by (nonlinear_arith)
                requires 1 <= window <= 1625;
        }
        let j = start + i;
        let (x, y, z) = scan_digits(j, window);
        proof {
            lemma_window_cell_scan(x0 as int, y0 as int, z0 as int, window as nat, j as int);
        }
        let c = vec![(x0 + x) as i32, (y0 + y) as i32, (z0 + z) as i32];
        proof {
            assert(c@ =~= window_cell(x0 as int, y0 as int, z0 as int, window as nat, j as int));
        }
        out.push(c);
        i = i + 1;
    }
    out
}

} // verus!


