//! The per-neuron machinery: the double-buffered charge accumulator, fire
//! receipts, synapses, the plasticity kernel, and the three neuron roles.
//!
//! All signal quantities are fixed-point values: a *measure* in `[0, 1]` is
//! stored as an integer number of millionths in `[0, MEASURE_SCALE]`, and a
//! synapse *weight* is stored in the same millionth units.

use vstd::prelude::*;
use crate::{lemma_div_at_most, lemma_div_below};

verus! {

/// One whole unit of measure or weight, in fixed-point millionths.
pub const MEASURE_SCALE: u64 = 1_000_000;

/// The two alternating charge parities.  A neuron drains one parity's
/// histogram while impulses for the next cycle accumulate in the other;
/// this double buffering gives every synapse a fixed one-cycle delay.
#[derive(Copy, Clone, PartialEq, Eq, Structural, Debug)]
pub enum ChargeCycle {
    Even,
    Odd,
}

impl ChargeCycle {
    /// The parity of the cycle that follows this one.
    pub open spec fn spec_next_cycle(self) -> ChargeCycle {
        match self {
            ChargeCycle::Even => ChargeCycle::Odd,
            ChargeCycle::Odd => ChargeCycle::Even,
        }
    }

    /// Flip to the other parity.
    pub fn next_cycle(&self) -> (r: ChargeCycle)
        ensures
            r == self.spec_next_cycle(),
    {
        match self {
            ChargeCycle::Even => ChargeCycle::Odd,
            ChargeCycle::Odd => ChargeCycle::Even,
        }
    }
}

/// An ephemeral (weight, measure) pair passed from a firing source neuron to
/// a target neuron's accumulator.
#[derive(Copy, Clone, PartialEq, Eq, Structural, Debug)]
pub struct Impulse {
    pub weight: u64,
    pub measure: u64,
}

impl Impulse {
    /// An impulse is well formed when its measure lies in `[0, 1]`.
    pub open spec fn wf(self) -> bool {
        self.measure <= MEASURE_SCALE
    }

    pub fn new(weight: u64, measure: u64) -> (r: Impulse)
        ensures
            r == (Impulse { weight, measure }),
    {
        Impulse { weight, measure }
    }

    /// The product of weight and measure: the quantity accumulated in a
    /// histogram bin's charge cell.
    pub fn weighted_measure(&self) -> (r: u128)
        requires
            self.wf(),
        ensures
            r == self.weight as int * self.measure as int,
    {
        proof {
            assert(self.weight as int * self.measure as int <= u64::MAX as int
                * MEASURE_SCALE as int) by (nonlinear_arith)
                requires self.weight <= u64::MAX && self.measure <= MEASURE_SCALE;
        }
        self.weight as u128 * self.measure as u128
    }
}

/// Largest magnitude a histogram cell may hold.  Deposits saturate here, so
/// that a sum over all (at most 256) bins always fits in an `i128`.
pub const CHARGE_LIMIT: i128 = 0x007f_ffff_ffff_ffff_ffff_ffff_ffff_ffff_i128;

/// The mathematical content of a charge accumulator: two parallel
/// histograms, one per parity, each pairing a weighted-charge sum with a
/// weight sum per measure bin.
pub ghost struct ChargeView {
    pub even: Seq<i128>,
    pub even_weights: Seq<i128>,
    pub odd: Seq<i128>,
    pub odd_weights: Seq<i128>,
    pub bins: nat,
}

impl ChargeView {
    pub open spec fn charges(self, cycle: ChargeCycle) -> Seq<i128> {
        match cycle {
            ChargeCycle::Even => self.even,
            ChargeCycle::Odd => self.odd,
        }
    }

    pub open spec fn weights(self, cycle: ChargeCycle) -> Seq<i128> {
        match cycle {
            ChargeCycle::Even => self.even_weights,
            ChargeCycle::Odd => self.odd_weights,
        }
    }

    pub open spec fn wf(self) -> bool {
        &&& 1 <= self.bins <= 255
        &&& self.even.len() == self.bins
        &&& self.even_weights.len() == self.bins
        &&& self.odd.len() == self.bins
        &&& self.odd_weights.len() == self.bins
        &&& bounded(self.even)
        &&& bounded(self.even_weights)
        &&& bounded(self.odd)
        &&& bounded(self.odd_weights)
    }
}

/// Every cell lies within the saturation band.
pub open spec fn bounded(s: Seq<i128>) -> bool {
    forall|i: int| 0 <= i < s.len() ==> -CHARGE_LIMIT <= #[trigger] s[i] <= CHARGE_LIMIT
}

/// A sequence of `n` zeroed cells.
pub open spec fn zero_cells(n: nat) -> Seq<i128> {
    Seq::new(n, |i: int| 0i128)
}

/// Addition clamped into the saturation band.
pub open spec fn clamp_cell(x: int) -> int {
    if x > CHARGE_LIMIT {
        CHARGE_LIMIT as int
    } else if x < -CHARGE_LIMIT {
        -CHARGE_LIMIT as int
    } else {
        x
    }
}

/// The bin a measure falls into: `floor(measure * bins)` in measure units,
/// clamped to the top bin.
pub open spec fn spec_bin_index(measure: u64, bins: nat) -> int {
    let raw = measure * bins / (MEASURE_SCALE as int);
    if raw >= bins {
        bins - 1
    } else {
        raw
    }
}

/// Sum of the weight cells that hold strictly positive weight; bins driven
/// net-negative by inhibition contribute nothing.
pub open spec fn sum_pos(s: Seq<i128>) -> int
    decreases s.len(),
{
    if s.len() == 0 {
        0
    } else {
        sum_pos(s.drop_last()) + if s.last() > 0 {
            s.last() as int
        } else {
            0
        }
    }
}

/// Sum of the charge cells whose own value and whose bin's weight are both
/// non-negative.
pub open spec fn sum_gated(cs: Seq<i128>, ws: Seq<i128>) -> int
    decreases cs.len(),
{
    if cs.len() == 0 || ws.len() != cs.len() {
        0
    } else {
        sum_gated(cs.drop_last(), ws.drop_last()) + if ws.last() >= 0 && cs.last() >= 0 {
            cs.last() as int
        } else {
            0
        }
    }
}

pub proof fn lemma_sum_pos_bounds(s: Seq<i128>)
    requires
        bounded(s),
    ensures
        0 <= sum_pos(s) <= s.len() * CHARGE_LIMIT,
    decreases s.len(),
{
    if s.len() > 0 {
        assert(bounded(s.drop_last())) by {
            assert(forall|i: int|
                0 <= i < s.drop_last().len() ==> #[trigger] s.drop_last()[i] == s[i]);
        }
        lemma_sum_pos_bounds(s.drop_last());
        assert((s.len() - 1) * CHARGE_LIMIT + CHARGE_LIMIT == s.len() * CHARGE_LIMIT) by (nonlinear_arith);
    }
}

pub proof fn lemma_sum_gated_bounds(cs: Seq<i128>, ws: Seq<i128>)
    requires
        bounded(cs),
    ensures
        0 <= sum_gated(cs, ws) <= cs.len() * CHARGE_LIMIT,
    decreases cs.len(),
{
    if cs.len() > 0 && ws.len() == cs.len() {
        assert(bounded(cs.drop_last())) by {
            assert(forall|i: int|
                0 <= i < cs.drop_last().len() ==> #[trigger] cs.drop_last()[i] == cs[i]);
        }
        lemma_sum_gated_bounds(cs.drop_last(), ws.drop_last());
        assert((cs.len() - 1) * CHARGE_LIMIT + CHARGE_LIMIT == cs.len() * CHARGE_LIMIT) by (nonlinear_arith);
    } else if cs.len() > 0 {
        assert(sum_gated(cs, ws) == 0);
        assert(cs.len() * CHARGE_LIMIT >= 0) by (nonlinear_arith);
    }
}

/// A sum over zeroed cells is zero.
pub proof fn lemma_sum_pos_zero(n: nat)
    ensures
        sum_pos(zero_cells(n)) == 0,
    decreases n,
{
    if n > 0 {
        assert(zero_cells(n).drop_last() =~= zero_cells((n - 1) as nat));
        lemma_sum_pos_zero((n - 1) as nat);
    }
}

/// One deposit: add `delta_charge` and `delta_weight`, saturating, to the
/// bin for `measure` in the parity *after* `cycle` (the one-cycle delay);
/// the histograms of `cycle` itself are untouched.
pub open spec fn spec_deposit(
    cv: ChargeView,
    cycle: ChargeCycle,
    measure: u64,
    delta_charge: int,
    delta_weight: int,
) -> ChargeView {
    let bin = spec_bin_index(measure, cv.bins);
    let cs = cv.charges(cycle.spec_next_cycle());
    let ws = cv.weights(cycle.spec_next_cycle());
    let cs2 = cs.update(bin, clamp_cell(cs[bin] + delta_charge) as i128);
    let ws2 = ws.update(bin, clamp_cell(ws[bin] + delta_weight) as i128);
    match cycle.spec_next_cycle() {
        ChargeCycle::Even => ChargeView { even: cs2, even_weights: ws2, ..cv },
        ChargeCycle::Odd => ChargeView { odd: cs2, odd_weights: ws2, ..cv },
    }
}

/// Zero both histograms of one parity, leaving the other parity alone.
pub open spec fn spec_reset(cv: ChargeView, cycle: ChargeCycle) -> ChargeView {
    match cycle {
        ChargeCycle::Even => ChargeView {
            even: zero_cells(cv.bins),
            even_weights: zero_cells(cv.bins),
            ..cv
        },
        ChargeCycle::Odd => ChargeView {
            odd: zero_cells(cv.bins),
            odd_weights: zero_cells(cv.bins),
            ..cv
        },
    }
}

/// The total weight of evidence a parity holds.
pub open spec fn spec_total_weight(cv: ChargeView, cycle: ChargeCycle) -> int {
    sum_pos(cv.weights(cycle))
}

/// The representative measure a parity reports: the gated charge sum divided
/// by the total weight, zero if there is no weight, clamped into `[0, 1]`.
pub open spec fn spec_weighted_average(cv: ChargeView, cycle: ChargeCycle) -> int {
    let den = sum_pos(cv.weights(cycle));
    let num = sum_gated(cv.charges(cycle), cv.weights(cycle));
    if den == 0 {
        0
    } else if num / den > MEASURE_SCALE {
        MEASURE_SCALE as int
    } else {
        num / den
    }
}

/// Per-neuron double-buffered histogram of incoming signal.  Each parity
/// partitions the measure range `[0, 1]` into `bins` bins; each bin holds an
/// accumulated weighted-charge sum and an accumulated weight sum.
pub struct InternalCharge {
    even: Vec<i128>,
    even_weights: Vec<i128>,
    odd: Vec<i128>,
    odd_weights: Vec<i128>,
    bins: u8,
}

impl View for InternalCharge {
    type V = ChargeView;

    closed spec fn view(&self) -> ChargeView {
        ChargeView {
            even: self.even@,
            even_weights: self.even_weights@,
            odd: self.odd@,
            odd_weights: self.odd_weights@,
            bins: self.bins as nat,
        }
    }
}

impl InternalCharge {
    pub fn new(bins: u8) -> (r: InternalCharge)
        requires
            bins >= 1,
        ensures
            r@.wf(),
            r@.bins == bins,
            r@.even =~= zero_cells(bins as nat),
            r@.even_weights =~= zero_cells(bins as nat),
            r@.odd =~= zero_cells(bins as nat),
            r@.odd_weights =~= zero_cells(bins as nat),
    {
        InternalCharge {
            even: zeroed_cells(bins),
            even_weights: zeroed_cells(bins),
            odd: zeroed_cells(bins),
            odd_weights: zeroed_cells(bins),
            bins,
        }
    }

    pub fn get_bin(&self, measure: u64) -> (r: u8)
        requires
            self@.wf(),
        ensures
            r == spec_bin_index(measure, self@.bins),
    {
        proof {
            assert(measure as int * self.bins as int <= u64::MAX as int * 255int)
                by (nonlinear_arith)
                requires measure <= u64::MAX && self.bins <= 255;
        }
        let raw = measure as u128 * self.bins as u128 / MEASURE_SCALE as u128;
        if raw >= self.bins as u128 {
            self.bins - 1
        } else {
            raw as u8
        }
    }

    /// Called when an excitatory synapse fires: accumulate the impulse into
    /// the parity that will become active next cycle.
    pub fn incr_next_charge(&mut self, cycle: ChargeCycle, incr_charge: Impulse)
        requires
            old(self)@.wf(),
            incr_charge.wf(),
        ensures
            final(self)@.wf(),
            final(self)@ == spec_deposit(
                old(self)@,
                cycle,
                incr_charge.measure,
                incr_charge.weight as int * incr_charge.measure as int,
                incr_charge.weight as int,
            ),
    {
        let bin = self.get_bin(incr_charge.measure);
        let wm = incr_charge.weighted_measure();
        proof {
            lemma_weighted_measure_fits(incr_charge);
        }
        match cycle.next_cycle() {
            ChargeCycle::Even => {
                deposit_cell(&mut self.even, bin as usize, wm as i128);
                deposit_cell(&mut self.even_weights, bin as usize, incr_charge.weight as i128);
            }
            ChargeCycle::Odd => {
                deposit_cell(&mut self.odd, bin as usize, wm as i128);
                deposit_cell(&mut self.odd_weights, bin as usize, incr_charge.weight as i128);
            }
        }
    }

    /// Called when an inhibitory synapse fires: the same deposit with both
    /// contributions negated.
    pub fn inhibit_next_charge(&mut self, cycle: ChargeCycle, inhibitory_impulse: Impulse)
        requires
            old(self)@.wf(),
            inhibitory_impulse.wf(),
        ensures
            final(self)@.wf(),
            final(self)@ == spec_deposit(
                old(self)@,
                cycle,
                inhibitory_impulse.measure,
                -(inhibitory_impulse.weight as int * inhibitory_impulse.measure as int),
                -(inhibitory_impulse.weight as int),
            ),
    {
        let bin = self.get_bin(inhibitory_impulse.measure);
        let wm = inhibitory_impulse.weighted_measure();
        proof {
            lemma_weighted_measure_fits(inhibitory_impulse);
        }
        match cycle.next_cycle() {
            ChargeCycle::Even => {
                deposit_cell(&mut self.even, bin as usize, -(wm as i128));
                deposit_cell(&mut self.even_weights, bin as usize, -(inhibitory_impulse.weight as i128));
            }
            ChargeCycle::Odd => {
                deposit_cell(&mut self.odd, bin as usize, -(wm as i128));
                deposit_cell(&mut self.odd_weights, bin as usize, -(inhibitory_impulse.weight as i128));
            }
        }
    }

    /// The total weight of evidence held for `cycle`.
    pub fn get_weights(&self, cycle: ChargeCycle) -> (r: i128)
        requires
            self@.wf(),
        ensures
            r == spec_total_weight(self@, cycle),
            r >= 0,
    {
        let ws = match cycle {
            ChargeCycle::Even => &self.even_weights,
            ChargeCycle::Odd => &self.odd_weights,
        };
        sum_positive_cells(ws)
    }

    /// The representative measure for `cycle`, in `[0, 1]`.
    pub fn get_charge_weighted_average(&self, cycle: ChargeCycle) -> (r: u64)
        requires
            self@.wf(),
        ensures
            r == spec_weighted_average(self@, cycle),
            r <= MEASURE_SCALE,
    {
        let (cs, ws) = match cycle {
            ChargeCycle::Even => (&self.even, &self.even_weights),
            ChargeCycle::Odd => (&self.odd, &self.odd_weights),
        };
        let den = sum_positive_cells(ws);
        let num = sum_gated_cells(cs, ws);
        if den == 0 {
            0
        } else {
            let q = num / den;
            proof {
                vstd::arithmetic::div_mod::lemma_div_pos_is_pos(num as int, den as int);
            }
            if q > MEASURE_SCALE as i128 {
                MEASURE_SCALE
            } else {
                q as u64
            }
        }
    }

    /// One bin's accumulated weight sum.
    pub fn bin_weight(&self, cycle: ChargeCycle, bin: usize) -> (r: i128)
        requires
            self@.wf(),
            bin < self@.bins,
        ensures
            r == self@.weights(cycle)[bin as int],
    {
        let ws = match cycle {
            ChargeCycle::Even => &self.even_weights,
            ChargeCycle::Odd => &self.odd_weights,
        };
        ws[bin]
    }

    /// One bin's accumulated weighted-charge sum.
    pub fn bin_charge(&self, cycle: ChargeCycle, bin: usize) -> (r: i128)
        requires
            self@.wf(),
            bin < self@.bins,
        ensures
            r == self@.charges(cycle)[bin as int],
    {
        let cs = match cycle {
            ChargeCycle::Even => &self.even,
            ChargeCycle::Odd => &self.odd,
        };
        cs[bin]
    }

    /// Zero both histograms of `cycle`, leaving the other parity untouched.
    /// Called once per cycle per neuron, after the parity is read.
    pub fn reset_charge(&mut self, cycle: ChargeCycle)
        requires
            old(self)@.wf(),
        ensures
            final(self)@.wf(),
            final(self)@ == spec_reset(old(self)@, cycle),
    {
        let bins = self.bins;
        match cycle {
            ChargeCycle::Even => {
                self.even = zeroed_cells(bins);
                self.even_weights = zeroed_cells(bins);
            }
            ChargeCycle::Odd => {
                self.odd = zeroed_cells(bins);
                self.odd_weights = zeroed_cells(bins);
            }
        }
        proof {
            assert(final(self)@ =~= spec_reset(old(self)@, cycle));
        }
    }
}

/// The weighted-measure product of a well-formed impulse fits a cell delta.
proof fn lemma_weighted_measure_fits(imp: Impulse)
    requires
        imp.wf(),
    ensures
        0 <= imp.weight as int * imp.measure as int <= CHARGE_LIMIT,
{
    assert(imp.weight as int * imp.measure as int <= u64::MAX as int * MEASURE_SCALE as int)
        by (nonlinear_arith)
        requires imp.weight <= u64::MAX && imp.measure <= MEASURE_SCALE;
    assert(imp.weight as int * imp.measure as int >= 0) by (nonlinear_arith);
}

/// A fresh vector of `n` zeroed cells.
fn zeroed_cells(n: u8) -> (r: Vec<i128>)
    ensures
        r@ =~= zero_cells(n as nat),
{
    let mut v: Vec<i128> = Vec::new();
    let mut i: u8 = 0;
    while i < n
        invariant
            i <= n,
            v@ =~= zero_cells(i as nat),
        decreases n - i,
    {
        v.push(0);
        i = i + 1;
        proof {
            assert(v@ =~= zero_cells(i as nat));
        }
    }
    v
}

/// Saturating deposit into one cell.
fn deposit_cell(cells: &mut Vec<i128>, bin: usize, delta: i128)
    requires
        bounded(old(cells)@),
        0 <= bin < old(cells)@.len(),
        -CHARGE_LIMIT <= delta <= CHARGE_LIMIT,
    ensures
        final(cells)@ =~= old(cells)@.update(
            bin as int,
            clamp_cell(old(cells)@[bin as int] + delta) as i128,
        ),
        bounded(final(cells)@),
{
    let cur = cells[bin];
    let sum = cur + delta;
    let clamped = if sum > CHARGE_LIMIT {
        CHARGE_LIMIT
    } else if sum < -CHARGE_LIMIT {
        -CHARGE_LIMIT
    } else {
        sum
    };
    cells.set(bin, clamped);
}

/// Sum of the strictly positive cells.
fn sum_positive_cells(cells: &Vec<i128>) -> (r: i128)
    requires
        bounded(cells@),
        cells@.len() <= 255,
    ensures
        r == sum_pos(cells@),
        r >= 0,
{
    let mut acc: i128 = 0;
    let mut i: usize = 0;
    proof {
        assert(cells@.subrange(0, 0) =~= Seq::<i128>::empty());
    }
    while i < cells.len()
        invariant
            i <= cells@.len(),
            cells@.len() <= 255,
            bounded(cells@),
            acc == sum_pos(cells@.subrange(0, i as int)),
            acc >= 0,
        decreases cells@.len() - i,
    {
        proof {
            assert(bounded(cells@.subrange(0, i as int)));
            lemma_sum_pos_bounds(cells@.subrange(0, i as int));
            assert(i as int * CHARGE_LIMIT <= 255 * CHARGE_LIMIT) by (nonlinear_arith)
                requires 0 <= i <= 255;
        }
        let c = cells[i];
        if c > 0 {
            acc = acc + c;
        }
        i = i + 1;
        proof {
            let pre = cells@.subrange(0, i - 1);
            let now = cells@.subrange(0, i as int);
            assert(now.drop_last() =~= pre);
            assert(now.last() == cells@[i - 1]);
        }
    }
    proof {
        assert(cells@.subrange(0, cells@.len() as int) =~= cells@);
    }
    acc
}

/// Sum of the charge cells gated by non-negative charge and weight.
fn sum_gated_cells(cs: &Vec<i128>, ws: &Vec<i128>) -> (r: i128)
    requires
        bounded(cs@),
        cs@.len() == ws@.len(),
        cs@.len() <= 255,
    ensures
        r == sum_gated(cs@, ws@),
        r >= 0,
{
    let mut acc: i128 = 0;
    let mut i: usize = 0;
    proof {
        assert(cs@.subrange(0, 0) =~= Seq::<i128>::empty());
        assert(ws@.subrange(0, 0) =~= Seq::<i128>::empty());
    }
    while i < cs.len()
        invariant
            i <= cs@.len(),
            cs@.len() == ws@.len(),
            cs@.len() <= 255,
            bounded(cs@),
            acc == sum_gated(cs@.subrange(0, i as int), ws@.subrange(0, i as int)),
            acc >= 0,
        decreases cs@.len() - i,
    {
        proof {
            assert(bounded(cs@.subrange(0, i as int)));
            lemma_sum_gated_bounds(cs@.subrange(0, i as int), ws@.subrange(0, i as int));
            assert(i as int * CHARGE_LIMIT <= 255 * CHARGE_LIMIT) by (nonlinear_arith)
                requires 0 <= i <= 255;
        }
        let c = cs[i];
        let w = ws[i];
        if w >= 0 && c >= 0 {
            acc = acc + c;
        }
        i = i + 1;
        proof {
            let pre_c = cs@.subrange(0, i - 1);
            let pre_w = ws@.subrange(0, i - 1);
            let now_c = cs@.subrange(0, i as int);
            let now_w = ws@.subrange(0, i as int);
            assert(now_c.drop_last() =~= pre_c);
            assert(now_w.drop_last() =~= pre_w);
        }
    }
    proof {
        assert(cs@.subrange(0, cs@.len() as int) =~= cs@);
        assert(ws@.subrange(0, ws@.len() as int) =~= ws@);
    }
    acc
}

/// After `reset_charge(parity)`, that parity reads back as empty: its total
/// weight and its weighted average are both zero.
pub proof fn lemma_reset_reads_zero(cv: ChargeView, cycle: ChargeCycle)
    requires
        cv.wf(),
    ensures
        spec_total_weight(spec_reset(cv, cycle), cycle) == 0,
        spec_weighted_average(spec_reset(cv, cycle), cycle) == 0,
{
    lemma_sum_pos_zero(cv.bins);
}

/// Per neuron, one record per parity of whether it last fired at that parity
/// and, if so, with which output measure.  Used to detect co-firing with a
/// two-cycle offset for plasticity.
#[derive(Copy, Clone, PartialEq, Eq, Structural, Debug)]
pub struct FireReceipt {
    pub fired: bool,
    pub measure: u64,
}

impl FireReceipt {
    pub open spec fn wf(self) -> bool {
        self.measure <= MEASURE_SCALE
    }

    pub fn new(fired: bool, measure: u64) -> (r: FireReceipt)
        ensures
            r == (FireReceipt { fired, measure }),
    {
        FireReceipt { fired, measure }
    }

    /// The receipt of a neuron that has not fired.
    pub fn new_empty() -> (r: FireReceipt)
        ensures
            r == spec_empty_receipt(),
    {
        FireReceipt { fired: false, measure: 0 }
    }
}

pub open spec fn spec_empty_receipt() -> FireReceipt {
    FireReceipt { fired: false, measure: 0 }
}

/// Writing a receipt for one parity leaves the other parity's receipt alone.
pub open spec fn spec_set_receipt(
    receipts: (FireReceipt, FireReceipt),
    cycle: ChargeCycle,
    r: FireReceipt,
) -> (FireReceipt, FireReceipt) {
    match cycle {
        ChargeCycle::Even => (r, receipts.1),
        ChargeCycle::Odd => (receipts.0, r),
    }
}

pub open spec fn spec_get_receipt(
    receipts: (FireReceipt, FireReceipt),
    cycle: ChargeCycle,
) -> FireReceipt {
    match cycle {
        ChargeCycle::Even => receipts.0,
        ChargeCycle::Odd => receipts.1,
    }
}

/// The pair of fire receipts a neuron keeps, one per parity.
pub struct FireTracker {
    receipts: (FireReceipt, FireReceipt),
}

impl View for FireTracker {
    type V = (FireReceipt, FireReceipt);

    closed spec fn view(&self) -> (FireReceipt, FireReceipt) {
        self.receipts
    }
}

impl FireTracker {
    pub open spec fn wf(self) -> bool {
        self@.0.wf() && self@.1.wf()
    }

    pub fn new() -> (r: FireTracker)
        ensures
            r@ == (spec_empty_receipt(), spec_empty_receipt()),
    {
        FireTracker { receipts: (FireReceipt::new_empty(), FireReceipt::new_empty()) }
    }

    pub fn check_receipt(&self, cycle: ChargeCycle) -> (r: FireReceipt)
        ensures
            r == spec_get_receipt(self@, cycle),
    {
        match cycle {
            ChargeCycle::Even => self.receipts.0,
            ChargeCycle::Odd => self.receipts.1,
        }
    }

    pub fn create_receipt(&mut self, cycle: ChargeCycle, fired: bool, measure: u64)
        ensures
            final(self)@ == spec_set_receipt(
                old(self)@,
                cycle,
                FireReceipt { fired, measure },
            ),
    {
        match cycle {
            ChargeCycle::Even => {
                self.receipts.0 = FireReceipt::new(fired, measure);
            }
            ChargeCycle::Odd => {
                self.receipts.1 = FireReceipt::new(fired, measure);
            }
        }
    }

    pub fn clear_receipts(&mut self)
        ensures
            final(self)@ == (spec_empty_receipt(), spec_empty_receipt()),
    {
        self.receipts = (FireReceipt::new_empty(), FireReceipt::new_empty());
    }
}

/// Whether a synapse deposits its impulse positively or negatively.
#[derive(Copy, Clone, PartialEq, Eq, Structural, Debug)]
pub enum SynapseType {
    Excitatory,
    Inhibitory,
}

/// A synapse's target: an index into the network's plastic or actuator
/// arena.  Synapses store stable indices rather than references, so the
/// population can own every neuron outright.
#[derive(Copy, Clone, PartialEq, Eq, Structural, Debug)]
pub enum SynapseTarget {
    Plastic(usize),
    Actuator(usize),
}

impl SynapseTarget {
    /// The target indexes an existing neuron.
    pub open spec fn wf(self, n_plastic: nat, n_actuator: nat) -> bool {
        match self {
            SynapseTarget::Plastic(i) => i < n_plastic,
            SynapseTarget::Actuator(i) => i < n_actuator,
        }
    }
}

/// A directed edge from its (implicit) source neuron, carrying a
/// non-negative weight and a type tag.
#[derive(Copy, Clone, PartialEq, Eq, Structural, Debug)]
pub struct Synapse {
    pub synapse_type: SynapseType,
    pub weight: u64,
    pub target: SynapseTarget,
}

impl Synapse {
    pub fn new(synapse_type: SynapseType, weight: u64, target: SynapseTarget) -> (r: Synapse)
        ensures
            r == (Synapse { synapse_type, weight, target }),
    {
        Synapse { synapse_type, weight, target }
    }
}

/// A pure rule that turns two co-firing measures into a signed weight delta,
/// in millionth units.  The network applies it with a two-cycle offset: the
/// target's fresh measure against the source's measure from two cycles ago.
pub trait WeightModifier: Sized {
    /// The delta as a mathematical function of the two measures.
    spec fn spec_delta(&self, target_measure: u64, source_measure: u64) -> i64;

    fn delta(&self, target_measure: u64, source_measure: u64) -> (r: i64)
        requires
            target_measure <= MEASURE_SCALE,
            source_measure <= MEASURE_SCALE,
        ensures
            r == self.spec_delta(target_measure, source_measure),
    ;
}

/// Interpolation table for the decay curve `e^(-15x)` over `x` in `[0, 1]`,
/// sampled every sixteenth of a unit, in millionths.
pub open spec fn decay_table(k: int) -> u64 {
    if k <= 0 { 1_000_000 }
    else if k == 1 { 391_606 }
    else if k == 2 { 153_355 }
    else if k == 3 { 60_055 }
    else if k == 4 { 23_518 }
    else if k == 5 { 9_210 }
    else if k == 6 { 3_607 }
    else if k == 7 { 1_412 }
    else if k == 8 { 553 }
    else if k == 9 { 217 }
    else if k == 10 { 85 }
    else if k == 11 { 33 }
    else if k == 12 { 13 }
    else if k == 13 { 5 }
    else if k == 14 { 2 }
    else if k == 15 { 1 }
    else { 0 }
}

/// Width of one interpolation interval, in millionths.
pub const DECAY_STEP: u64 = 62_500;

/// `e^(-1.5)` in millionths: the decay curve's value at the unit distance
/// that the similarity kernel rebases to zero.
pub const DECAY_AT_ONE_TENTH_SCALE: u64 = 223_130;

/// The decay curve `e^(-15x)` for `x` in `[0, 1]` millionths, by linear
/// interpolation of `decay_table`.
pub open spec fn spec_decay(x: u64) -> int {
    let k = x as int / DECAY_STEP as int;
    let frac = x as int % DECAY_STEP as int;
    if k >= 16 {
        0
    } else {
        decay_table(k) - (decay_table(k) - decay_table(k + 1)) * frac / (DECAY_STEP as int)
    }
}

/// The similarity kernel `(e^(-15|a-b|) - e^(-1.5)) / (1 - e^(-1.5))`, in
/// millionths: one whole unit when the measures agree, negative once they
/// are far apart, never at or below minus one unit.
pub open spec fn spec_basic_weight_modifier(target_measure: u64, weight_measure: u64) -> i64 {
    let x = if target_measure >= weight_measure {
        target_measure - weight_measure
    } else {
        weight_measure - target_measure
    };
    let e = spec_decay(x as u64);
    let e1 = DECAY_AT_ONE_TENTH_SCALE as int;
    let den = MEASURE_SCALE as int - e1;
    if e >= e1 {
        ((e - e1) * MEASURE_SCALE / den) as i64
    } else {
        (-((e1 - e) * MEASURE_SCALE / den)) as i64
    }
}

/// The decay curve stays within `[0, 1]` and is one whole unit at zero.
pub proof fn lemma_decay_bounds(x: u64)
    ensures
        0 <= spec_decay(x) <= MEASURE_SCALE,
        x == 0 ==> spec_decay(x) == MEASURE_SCALE,
{
    let k = x as int / DECAY_STEP as int;
    let frac = x as int % DECAY_STEP as int;
    vstd::arithmetic::div_mod::lemma_mod_bound(x as int, DECAY_STEP as int);
    vstd::arithmetic::div_mod::lemma_div_pos_is_pos(x as int, DECAY_STEP as int);
    if k < 16 {
        let d = decay_table(k) - decay_table(k + 1);
        assert(0 <= d <= 1_000_000);
        assert(0 <= d * frac) by (nonlinear_arith)
            requires 0 <= d && 0 <= frac;
        assert(d * frac <= d * (DECAY_STEP as int)) by (nonlinear_arith)
            requires 0 <= d && 0 <= frac < DECAY_STEP as int;
        lemma_div_at_most(d * frac, DECAY_STEP as int, d);
        if x == 0 {
            vstd::arithmetic::div_mod::lemma_div_of0(DECAY_STEP as int);
            vstd::arithmetic::div_mod::lemma_small_mod(0, DECAY_STEP as nat);
            assert(k == 0 && frac == 0);
            assert(decay_table(0) - decay_table(1) >= 0);
            vstd::arithmetic::div_mod::lemma_div_of0(DECAY_STEP as int);
            assert((decay_table(0) - decay_table(1)) * 0 == 0) by (nonlinear_arith);
            assert(spec_decay(x) == MEASURE_SCALE);
        }
    }
}

/// The default plasticity kernel keeps its promised range: it is exactly one
/// unit when the two measures agree, and always within `(-1, 1]` units.
pub proof fn lemma_basic_weight_modifier_range(a: u64, b: u64)
    requires
        a <= MEASURE_SCALE,
        b <= MEASURE_SCALE,
    ensures
        -(MEASURE_SCALE as int) < spec_basic_weight_modifier(a, b) <= MEASURE_SCALE as int,
        a == b ==> spec_basic_weight_modifier(a, b) == MEASURE_SCALE as int,
{
    let x: u64 = if a >= b { (a - b) as u64 } else { (b - a) as u64 };
    lemma_decay_bounds(x);
    let e = spec_decay(x);
    let e1 = DECAY_AT_ONE_TENTH_SCALE as int;
    let den = MEASURE_SCALE as int - e1;
    if e >= e1 {
        assert((e - e1) * MEASURE_SCALE <= MEASURE_SCALE as int * den) by (nonlinear_arith)
            requires 0 <= e - e1 <= den && MEASURE_SCALE > 0;
        assert(0 <= (e - e1) * MEASURE_SCALE) by (nonlinear_arith)
            requires 0 <= e - e1 && MEASURE_SCALE > 0;
        lemma_div_at_most((e - e1) * MEASURE_SCALE, den, MEASURE_SCALE as int);
        if a == b {
            assert(x == 0);
            assert(e == MEASURE_SCALE as int);
            assert((e - e1) * MEASURE_SCALE == den * (MEASURE_SCALE as int)) by (nonlinear_arith)
                requires e - e1 == den;
            vstd::arithmetic::div_mod::lemma_div_multiples_vanish(MEASURE_SCALE as int, den);
        }
    } else {
        assert(0 <= (e1 - e) * MEASURE_SCALE) by (nonlinear_arith)
            requires 0 <= e1 - e && MEASURE_SCALE > 0;
        assert((e1 - e) * MEASURE_SCALE < MEASURE_SCALE as int * den) by (nonlinear_arith)
            requires 0 <= e1 - e <= e1 && e1 < den && MEASURE_SCALE > 0;
        lemma_div_below((e1 - e) * MEASURE_SCALE, den, MEASURE_SCALE as int);
    }
}

/// The default weight modifier: an exponential-similarity kernel of the
/// distance between the target's measure and the synapse's remembered source
/// measure, positive for close agreement and negative for disagreement.
pub fn basic_weight_modifier(target_measure: u64, weight_measure: u64) -> (r: i64)
    requires
        target_measure <= MEASURE_SCALE,
        weight_measure <= MEASURE_SCALE,
    ensures
        r == spec_basic_weight_modifier(target_measure, weight_measure),
{
    let x: u64 = if target_measure >= weight_measure {
        target_measure - weight_measure
    } else {
        weight_measure - target_measure
    };
    let k = x / DECAY_STEP;
    let frac = x % DECAY_STEP;
    proof {
        vstd::arithmetic::div_mod::lemma_mod_bound(x as int, DECAY_STEP as int);
    }
    let e: u64 = if k >= 16 {
        0
    } else {
        let tk = decay_entry(k);
        let tk1 = decay_entry(k as u64 + 1);
        proof {
            assert(tk >= tk1);
            assert((tk - tk1) * frac <= 1_000_000 * 62_500int) by (nonlinear_arith)
                requires 0 <= tk - tk1 <= 1_000_000 && 0 <= frac <= 62_500;
            assert(0 <= (tk - tk1) * frac) by (nonlinear_arith)
                requires 0 <= tk - tk1 && 0 <= frac;
            assert((tk - tk1) * frac <= (tk - tk1) * (DECAY_STEP as int)) by (nonlinear_arith)
                requires 0 <= tk - tk1 && 0 <= frac <= DECAY_STEP as int;
            lemma_div_at_most((tk - tk1) * frac, DECAY_STEP as int, tk - tk1);
        }
        let interp = ((tk - tk1) * frac) / DECAY_STEP;
        tk - interp
    };
    proof {
        lemma_decay_bounds(x);
        assert(e == spec_decay(x));
    }
    let e1 = DECAY_AT_ONE_TENTH_SCALE;
    if e >= e1 {
        proof {
            let den = MEASURE_SCALE as int - e1 as int;
            assert(0 <= (e - e1) * MEASURE_SCALE) by (nonlinear_arith)
                requires 0 <= e - e1;
            assert((e - e1) * MEASURE_SCALE <= MEASURE_SCALE as int * den) by (nonlinear_arith)
                requires 0 <= e - e1 <= den && MEASURE_SCALE > 0;
            lemma_div_at_most((e - e1) * MEASURE_SCALE, den, MEASURE_SCALE as int);
        }
        (((e - e1) * MEASURE_SCALE) / (MEASURE_SCALE - e1)) as i64
    } else {
        proof {
            let den = MEASURE_SCALE as int - e1 as int;
            assert(0 <= (e1 - e) * MEASURE_SCALE) by (nonlinear_arith)
                requires 0 <= e1 - e;
            assert((e1 - e) * MEASURE_SCALE < MEASURE_SCALE as int * den) by (nonlinear_arith)
                requires 0 <= e1 - e <= e1 && e1 < den && MEASURE_SCALE > 0;
            lemma_div_below((e1 - e) * MEASURE_SCALE, den, MEASURE_SCALE as int);
        }
        let q = ((e1 - e) * MEASURE_SCALE) / (MEASURE_SCALE - e1);
        -(q as i64)
    }
}

/// Executable lookup of `decay_table`.
fn decay_entry(k: u64) -> (r: u64)
    ensures
        r == decay_table(k as int),
        r <= 1_000_000,
{
    if k == 0 { 1_000_000 }
    else if k == 1 { 391_606 }
    else if k == 2 { 153_355 }
    else if k == 3 { 60_055 }
    else if k == 4 { 23_518 }
    else if k == 5 { 9_210 }
    else if k == 6 { 3_607 }
    else if k == 7 { 1_412 }
    else if k == 8 { 553 }
    else if k == 9 { 217 }
    else if k == 10 { 85 }
    else if k == 11 { 33 }
    else if k == 12 { 13 }
    else if k == 13 { 5 }
    else if k == 14 { 2 }
    else if k == 15 { 1 }
    else { 0 }
}

/// The default modifier as a pluggable strategy value.
#[derive(Copy, Clone, PartialEq, Eq, Structural, Debug)]
pub struct BasicWeightModifier;

impl WeightModifier for BasicWeightModifier {
    open spec fn spec_delta(&self, target_measure: u64, source_measure: u64) -> i64 {
        spec_basic_weight_modifier(target_measure, source_measure)
    }

    fn delta(&self, target_measure: u64, source_measure: u64) -> (r: i64) {
        basic_weight_modifier(target_measure, source_measure)
    }
}

/// A synapse list is well formed when every target indexes an existing
/// neuron in the population arenas.
pub open spec fn synapses_wf(s: Seq<Synapse>, n_plastic: nat, n_actuator: nat) -> bool {
    forall|i: int| 0 <= i < s.len() ==> (#[trigger] s[i]).target.wf(n_plastic, n_actuator)
}

/// A weight delta applied to a synapse: clamped below at zero, so a synapse
/// can be silenced but never flip sign, and saturating above.
pub open spec fn spec_apply_delta(w: u64, d: i64) -> u64 {
    let s = w as int + d as int;
    if s < 0 {
        0u64
    } else if s > u64::MAX {
        u64::MAX
    } else {
        s as u64
    }
}

fn apply_weight_delta(w: u64, d: i64) -> (r: u64)
    ensures
        r == spec_apply_delta(w, d),
{
    if d >= 0 {
        let du = d as u64;
        if w > u64::MAX - du {
            u64::MAX
        } else {
            w + du
        }
    } else {
        let mag = (-(d as i128)) as u64;
        if w < mag {
            0
        } else {
            w - mag
        }
    }
}

/// The mathematical content of a plastic neuron.
pub ghost struct PlasticView {
    pub charge: ChargeView,
    pub plastic: Seq<Synapse>,
    pub statics: Seq<Synapse>,
    pub receipts: (FireReceipt, FireReceipt),
    pub fire_threshold: u64,
}

impl PlasticView {
    pub open spec fn wf(self) -> bool {
        &&& self.charge.wf()
        &&& self.receipts.0.wf()
        &&& self.receipts.1.wf()
    }
}

/// The mathematical content of an actuator neuron.
pub ghost struct ActuatorView {
    pub charge: ChargeView,
    pub receipts: (FireReceipt, FireReceipt),
    pub measure: u64,
    pub fire_threshold: u64,
}

impl ActuatorView {
    pub open spec fn wf(self) -> bool {
        &&& self.charge.wf()
        &&& self.receipts.0.wf()
        &&& self.receipts.1.wf()
        &&& self.measure <= MEASURE_SCALE
    }
}

/// The mathematical content of a sensory neuron.
pub ghost struct SensoryView {
    pub measure: u64,
    pub plastic: Seq<Synapse>,
    pub statics: Seq<Synapse>,
    pub receipts: (FireReceipt, FireReceipt),
}

impl SensoryView {
    pub open spec fn wf(self) -> bool {
        &&& self.measure <= MEASURE_SCALE
        &&& self.receipts.0.wf()
        &&& self.receipts.1.wf()
    }
}

/// Every neuron of an arena is well formed.
pub open spec fn plastic_arena_wf(pa: Seq<PlasticView>) -> bool {
    forall|i: int| 0 <= i < pa.len() ==> (#[trigger] pa[i]).wf()
}

pub open spec fn actuator_arena_wf(aa: Seq<ActuatorView>) -> bool {
    forall|i: int| 0 <= i < aa.len() ==> (#[trigger] aa[i]).wf()
}

/// Boundary neuron whose measure is supplied by an external sensor each
/// cycle.  It always fires, with that measure.
pub struct SensoryNeuron {
    measure: u64,
    plastic_synapses: Vec<Synapse>,
    static_synapses: Vec<Synapse>,
    fire_tracker: FireTracker,
}

impl View for SensoryNeuron {
    type V = SensoryView;

    closed spec fn view(&self) -> SensoryView {
        SensoryView {
            measure: self.measure,
            plastic: self.plastic_synapses@,
            statics: self.static_synapses@,
            receipts: self.fire_tracker@,
        }
    }
}

impl SensoryNeuron {
    pub fn new() -> (r: SensoryNeuron)
        ensures
            r@ == (SensoryView {
                measure: 0u64,
                plastic: Seq::<Synapse>::empty(),
                statics: Seq::<Synapse>::empty(),
                receipts: (spec_empty_receipt(), spec_empty_receipt()),
            }),
            r@.wf(),
    {
        let r = SensoryNeuron {
            measure: 0,
            plastic_synapses: Vec::new(),
            static_synapses: Vec::new(),
            fire_tracker: FireTracker::new(),
        };
        proof {
            assert(r@ =~= SensoryView {
                measure: 0u64,
                plastic: Seq::<Synapse>::empty(),
                statics: Seq::<Synapse>::empty(),
                receipts: (spec_empty_receipt(), spec_empty_receipt()),
            });
        }
        r
    }

    pub fn set_measure(&mut self, measure: u64)
        requires
            measure <= MEASURE_SCALE,
        ensures
            final(self)@ == (SensoryView { measure, ..old(self)@ }),
    {
        self.measure = measure;
    }

    pub fn add_plastic_synapse(&mut self, weight: u64, synapse_type: SynapseType, target: SynapseTarget)
        ensures
            final(self)@ == (SensoryView {
                plastic: old(self)@.plastic.push(Synapse { synapse_type, weight, target }),
                ..old(self)@
            }),
    {
        self.plastic_synapses.push(Synapse::new(synapse_type, weight, target));
    }

    pub fn add_static_synapse(&mut self, weight: u64, synapse_type: SynapseType, target: SynapseTarget)
        ensures
            final(self)@ == (SensoryView {
                statics: old(self)@.statics.push(Synapse { synapse_type, weight, target }),
                ..old(self)@
            }),
    {
        self.static_synapses.push(Synapse::new(synapse_type, weight, target));
    }

    pub fn get_plastic_synapses(&self) -> (r: &Vec<Synapse>)
        ensures
            r@ == self@.plastic,
    {
        &self.plastic_synapses
    }

    pub fn get_static_synapses(&self) -> (r: &Vec<Synapse>)
        ensures
            r@ == self@.statics,
    {
        &self.static_synapses
    }

    /// Lend out both synapse lists, leaving empty lists behind, so that the
    /// network can fire them against the arenas the neuron itself sits
    /// beside; `put_synapses` returns them.
    pub fn take_synapses(&mut self) -> (r: (Vec<Synapse>, Vec<Synapse>))
        ensures
            r.0@ == old(self)@.plastic,
            r.1@ == old(self)@.statics,
            final(self)@ == (SensoryView {
                plastic: Seq::<Synapse>::empty(),
                statics: Seq::<Synapse>::empty(),
                ..old(self)@
            }),
    {
        let mut p: Vec<Synapse> = Vec::new();
        let mut s: Vec<Synapse> = Vec::new();
        core::mem::swap(&mut p, &mut self.plastic_synapses);
        core::mem::swap(&mut s, &mut self.static_synapses);
        (p, s)
    }

    pub fn put_synapses(&mut self, plastic: Vec<Synapse>, statics: Vec<Synapse>)
        ensures
            final(self)@ == (SensoryView {
                plastic: plastic@,
                statics: statics@,
                ..old(self)@
            }),
    {
        self.plastic_synapses = plastic;
        self.static_synapses = statics;
    }

    /// Append a whole batch of plasticity-eligible synapses.
    pub fn append_plastic_synapses(&mut self, syns: &mut Vec<Synapse>)
        ensures
            final(self)@ == (SensoryView {
                plastic: old(self)@.plastic + old(syns)@,
                ..old(self)@
            }),
    {
        self.plastic_synapses.append(syns);
    }

    /// The local part of one cycle: report the externally supplied measure
    /// (a sensory neuron always fires), hand back the receipt from two
    /// cycles ago, and record this cycle's receipt.
    pub fn begin_cycle(&mut self, cycle: ChargeCycle) -> (r: (u64, FireReceipt))
        ensures
            (final(self)@, r.0, r.1) == spec_sensory_begin(old(self)@, cycle),
    {
        let prev = self.fire_tracker.check_receipt(cycle);
        let measure = self.measure;
        self.fire_tracker.create_receipt(cycle, true, measure);
        (measure, prev)
    }

    /// Zero the receipts; the measure and the wiring stay.
    pub fn clear(&mut self)
        ensures
            final(self)@ == (SensoryView {
                receipts: (spec_empty_receipt(), spec_empty_receipt()),
                ..old(self)@
            }),
    {
        self.fire_tracker.clear_receipts();
    }
}

/// What `SensoryNeuron::begin_cycle` does: the new state, the fired measure,
/// and the receipt this neuron wrote two cycles ago.
pub open spec fn spec_sensory_begin(v: SensoryView, cycle: ChargeCycle) -> (SensoryView, u64, FireReceipt) {
    let prev = spec_get_receipt(v.receipts, cycle);
    let v2 = SensoryView {
        receipts: spec_set_receipt(v.receipts, cycle, FireReceipt { fired: true, measure: v.measure }),
        ..v
    };
    (v2, v.measure, prev)
}

/// Interior-lattice neuron whose outgoing synapse weights adapt over time.
pub struct PlasticNeuron {
    fire_tracker: FireTracker,
    internal_charge: InternalCharge,
    plastic_synapses: Vec<Synapse>,
    static_synapses: Vec<Synapse>,
    fire_threshold: u64,
}

impl View for PlasticNeuron {
    type V = PlasticView;

    closed spec fn view(&self) -> PlasticView {
        PlasticView {
            charge: self.internal_charge@,
            plastic: self.plastic_synapses@,
            statics: self.static_synapses@,
            receipts: self.fire_tracker@,
            fire_threshold: self.fire_threshold,
        }
    }
}

impl PlasticNeuron {
    pub fn new(charge_bins: u8, fire_threshold: u64) -> (r: PlasticNeuron)
        requires
            charge_bins >= 1,
        ensures
            r@.wf(),
            r@.charge.bins == charge_bins,
            r@.charge == spec_fresh_charge(charge_bins as nat),
            r@.plastic == Seq::<Synapse>::empty(),
            r@.statics == Seq::<Synapse>::empty(),
            r@.receipts == (spec_empty_receipt(), spec_empty_receipt()),
            r@.fire_threshold == fire_threshold,
    {
        let r = PlasticNeuron {
            fire_tracker: FireTracker::new(),
            internal_charge: InternalCharge::new(charge_bins),
            plastic_synapses: Vec::new(),
            static_synapses: Vec::new(),
            fire_threshold,
        };
        proof {
            assert(r@.charge =~= spec_fresh_charge(charge_bins as nat));
        }
        r
    }

    pub fn add_plastic_synapse(&mut self, weight: u64, synapse_type: SynapseType, target: SynapseTarget)
        ensures
            final(self)@ == (PlasticView {
                plastic: old(self)@.plastic.push(Synapse { synapse_type, weight, target }),
                ..old(self)@
            }),
    {
        self.plastic_synapses.push(Synapse::new(synapse_type, weight, target));
    }

    pub fn add_static_synapse(&mut self, weight: u64, synapse_type: SynapseType, target: SynapseTarget)
        ensures
            final(self)@ == (PlasticView {
                statics: old(self)@.statics.push(Synapse { synapse_type, weight, target }),
                ..old(self)@
            }),
    {
        self.static_synapses.push(Synapse::new(synapse_type, weight, target));
    }

    pub fn get_plastic_synapses(&self) -> (r: &Vec<Synapse>)
        ensures
            r@ == self@.plastic,
    {
        &self.plastic_synapses
    }

    pub fn get_static_synapses(&self) -> (r: &Vec<Synapse>)
        ensures
            r@ == self@.statics,
    {
        &self.static_synapses
    }

    /// Lend out both synapse lists; see `SensoryNeuron::take_synapses`.
    pub fn take_synapses(&mut self) -> (r: (Vec<Synapse>, Vec<Synapse>))
        ensures
            r.0@ == old(self)@.plastic,
            r.1@ == old(self)@.statics,
            final(self)@ == (PlasticView {
                plastic: Seq::<Synapse>::empty(),
                statics: Seq::<Synapse>::empty(),
                ..old(self)@
            }),
    {
        let mut p: Vec<Synapse> = Vec::new();
        let mut s: Vec<Synapse> = Vec::new();
        core::mem::swap(&mut p, &mut self.plastic_synapses);
        core::mem::swap(&mut s, &mut self.static_synapses);
        (p, s)
    }

    pub fn put_synapses(&mut self, plastic: Vec<Synapse>, statics: Vec<Synapse>)
        ensures
            final(self)@ == (PlasticView {
                plastic: plastic@,
                statics: statics@,
                ..old(self)@
            }),
    {
        self.plastic_synapses = plastic;
        self.static_synapses = statics;
    }

    /// Append a whole batch of plasticity-eligible synapses.
    pub fn append_plastic_synapses(&mut self, syns: &mut Vec<Synapse>)
        ensures
            final(self)@ == (PlasticView {
                plastic: old(self)@.plastic + old(syns)@,
                ..old(self)@
            }),
    {
        self.plastic_synapses.append(syns);
    }

    pub fn intake_synaptic_impulse(&mut self, cycle: ChargeCycle, impulse: Impulse, synapse_type: SynapseType)
        requires
            old(self)@.wf(),
            impulse.wf(),
        ensures
            final(self)@.wf(),
            final(self)@ == (PlasticView {
                charge: spec_intake(old(self)@.charge, cycle, impulse, synapse_type),
                ..old(self)@
            }),
    {
        match synapse_type {
            SynapseType::Excitatory => self.internal_charge.incr_next_charge(cycle, impulse),
            SynapseType::Inhibitory => self.internal_charge.inhibit_next_charge(cycle, impulse),
        }
    }

    /// The receipt that — by the one-cycle transmission delay — holds this
    /// neuron's response to what a source firing now sent it two cycles ago.
    pub fn get_fire_receipt(&self, cycle: ChargeCycle) -> (r: FireReceipt)
        ensures
            r == spec_get_receipt(self@.receipts, cycle.spec_next_cycle()),
    {
        self.fire_tracker.check_receipt(cycle.next_cycle())
    }

    /// The total weight of evidence waiting in one parity's accumulator.
    pub fn total_charge_weight(&self, cycle: ChargeCycle) -> (r: i128)
        requires
            self@.wf(),
        ensures
            r == spec_total_weight(self@.charge, cycle),
    {
        self.internal_charge.get_weights(cycle)
    }

    /// The representative measure one parity's accumulator reports.
    pub fn charge_weighted_average(&self, cycle: ChargeCycle) -> (r: u64)
        requires
            self@.wf(),
        ensures
            r == spec_weighted_average(self@.charge, cycle),
    {
        self.internal_charge.get_charge_weighted_average(cycle)
    }

    /// The local part of one cycle: decide whether the neuron fires (total
    /// weight strictly above the threshold), with which measure, hand back
    /// the receipt from two cycles ago, record this cycle's receipt, and
    /// reset this parity's histograms.
    pub fn begin_cycle(&mut self, cycle: ChargeCycle) -> (r: (bool, u64, FireReceipt))
        requires
            old(self)@.wf(),
        ensures
            final(self)@.wf(),
            (final(self)@, r.0, r.1, r.2) == spec_plastic_begin(old(self)@, cycle),
            r.1 <= MEASURE_SCALE,
            r.0 == (spec_total_weight(old(self)@.charge, cycle) > old(self)@.fire_threshold),
    {
        let prev = self.fire_tracker.check_receipt(cycle);
        let total = self.internal_charge.get_weights(cycle);
        let fired = total > self.fire_threshold as i128;
        let measure = if fired {
            self.internal_charge.get_charge_weighted_average(cycle)
        } else {
            0
        };
        self.fire_tracker.create_receipt(cycle, fired, measure);
        self.internal_charge.reset_charge(cycle);
        (fired, measure, prev)
    }

    /// Zero both parities' histograms and both receipts; the wiring and the
    /// learned weights stay.
    pub fn clear(&mut self)
        requires
            old(self)@.wf(),
        ensures
            final(self)@.wf(),
            final(self)@ == (PlasticView {
                charge: spec_reset(spec_reset(old(self)@.charge, ChargeCycle::Even), ChargeCycle::Odd),
                receipts: (spec_empty_receipt(), spec_empty_receipt()),
                ..old(self)@
            }),
    {
        self.internal_charge.reset_charge(ChargeCycle::Even);
        self.internal_charge.reset_charge(ChargeCycle::Odd);
        self.fire_tracker.clear_receipts();
    }
}

/// What `PlasticNeuron::begin_cycle` does.
pub open spec fn spec_plastic_begin(v: PlasticView, cycle: ChargeCycle) -> (PlasticView, bool, u64, FireReceipt) {
    let prev = spec_get_receipt(v.receipts, cycle);
    let fired = spec_total_weight(v.charge, cycle) > v.fire_threshold;
    let measure: u64 = if fired {
        spec_weighted_average(v.charge, cycle) as u64
    } else {
        0u64
    };
    let v2 = PlasticView {
        charge: spec_reset(v.charge, cycle),
        receipts: spec_set_receipt(v.receipts, cycle, FireReceipt { fired, measure }),
        ..v
    };
    (v2, fired, measure, prev)
}

/// A fresh, zeroed accumulator with `bins` bins.
pub open spec fn spec_fresh_charge(bins: nat) -> ChargeView {
    ChargeView {
        even: zero_cells(bins),
        even_weights: zero_cells(bins),
        odd: zero_cells(bins),
        odd_weights: zero_cells(bins),
        bins,
    }
}

/// What `intake_synaptic_impulse` does to an accumulator: an excitatory
/// synapse deposits its weight and weighted measure positively, an
/// inhibitory one negatively.
pub open spec fn spec_intake(cv: ChargeView, cycle: ChargeCycle, impulse: Impulse, synapse_type: SynapseType) -> ChargeView {
    match synapse_type {
        SynapseType::Excitatory => spec_deposit(
            cv,
            cycle,
            impulse.measure,
            impulse.weight as int * impulse.measure as int,
            impulse.weight as int,
        ),
        SynapseType::Inhibitory => spec_deposit(
            cv,
            cycle,
            impulse.measure,
            -(impulse.weight as int * impulse.measure as int),
            -(impulse.weight as int),
        ),
    }
}

/// Boundary neuron whose fired measure is exposed to an external actuator.
/// It transmits nothing onward.
pub struct ActuatorNeuron {
    fire_tracker: FireTracker,
    internal_charge: InternalCharge,
    measure: u64,
    fire_threshold: u64,
}

impl View for ActuatorNeuron {
    type V = ActuatorView;

    closed spec fn view(&self) -> ActuatorView {
        ActuatorView {
            charge: self.internal_charge@,
            receipts: self.fire_tracker@,
            measure: self.measure,
            fire_threshold: self.fire_threshold,
        }
    }
}

impl ActuatorNeuron {
    pub fn new(charge_bins: u8, fire_threshold: u64) -> (r: ActuatorNeuron)
        requires
            charge_bins >= 1,
        ensures
            r@.wf(),
            r@.charge.bins == charge_bins,
            r@.charge == spec_fresh_charge(charge_bins as nat),
            r@.receipts == (spec_empty_receipt(), spec_empty_receipt()),
            r@.measure == 0,
            r@.fire_threshold == fire_threshold,
    {
        let r = ActuatorNeuron {
            fire_tracker: FireTracker::new(),
            internal_charge: InternalCharge::new(charge_bins),
            measure: 0,
            fire_threshold,
        };
        proof {
            assert(r@.charge =~= spec_fresh_charge(charge_bins as nat));
        }
        r
    }

    /// The measure of the last cycle in which this neuron fired.
    pub fn read_measure(&self) -> (r: u64)
        ensures
            r == self@.measure,
    {
        self.measure
    }

    pub fn intake_synaptic_impulse(&mut self, cycle: ChargeCycle, impulse: Impulse, synapse_type: SynapseType)
        requires
            old(self)@.wf(),
            impulse.wf(),
        ensures
            final(self)@.wf(),
            final(self)@ == (ActuatorView {
                charge: spec_intake(old(self)@.charge, cycle, impulse, synapse_type),
                ..old(self)@
            }),
    {
        match synapse_type {
            SynapseType::Excitatory => self.internal_charge.incr_next_charge(cycle, impulse),
            SynapseType::Inhibitory => self.internal_charge.inhibit_next_charge(cycle, impulse),
        }
    }

    /// See `PlasticNeuron::get_fire_receipt`.
    pub fn get_fire_receipt(&self, cycle: ChargeCycle) -> (r: FireReceipt)
        ensures
            r == spec_get_receipt(self@.receipts, cycle.spec_next_cycle()),
    {
        self.fire_tracker.check_receipt(cycle.next_cycle())
    }

    /// The total weight of evidence waiting in one parity's accumulator.
    pub fn total_charge_weight(&self, cycle: ChargeCycle) -> (r: i128)
        requires
            self@.wf(),
        ensures
            r == spec_total_weight(self@.charge, cycle),
    {
        self.internal_charge.get_weights(cycle)
    }

    /// The representative measure one parity's accumulator reports.
    pub fn charge_weighted_average(&self, cycle: ChargeCycle) -> (r: u64)
        requires
            self@.wf(),
        ensures
            r == spec_weighted_average(self@.charge, cycle),
    {
        self.internal_charge.get_charge_weighted_average(cycle)
    }

    /// One whole cycle: fire iff the total weight strictly exceeds the
    /// threshold, expose the fired measure, record the receipt, and reset
    /// this parity.  An actuator neuron has no synapses, so this is the
    /// whole of its cycle.
    pub fn run_cycle(&mut self, cycle: ChargeCycle)
        requires
            old(self)@.wf(),
        ensures
            final(self)@.wf(),
            final(self)@ == spec_actuator_cycle(old(self)@, cycle),
    {
        let total = self.internal_charge.get_weights(cycle);
        if total > self.fire_threshold as i128 {
            let measure = self.internal_charge.get_charge_weighted_average(cycle);
            self.measure = measure;
            self.fire_tracker.create_receipt(cycle, true, measure);
        } else {
            self.fire_tracker.create_receipt(cycle, false, 0);
        }
        self.internal_charge.reset_charge(cycle);
    }

    /// The inference-only pass: an actuator neuron has no outgoing synapses,
    /// so disabling weight adjustment changes nothing — this is behaviourally
    /// identical to `run_cycle`, and carries the same contract.
    pub fn run_static_cycle(&mut self, cycle: ChargeCycle)
        requires
            old(self)@.wf(),
        ensures
            final(self)@.wf(),
            final(self)@ == spec_actuator_cycle(old(self)@, cycle),
    {
        self.run_cycle(cycle);
    }

    /// Zero both parities' histograms and both receipts; the exposed
    /// measure keeps its last value.
    pub fn clear(&mut self)
        requires
            old(self)@.wf(),
        ensures
            final(self)@.wf(),
            final(self)@ == (ActuatorView {
                charge: spec_reset(spec_reset(old(self)@.charge, ChargeCycle::Even), ChargeCycle::Odd),
                receipts: (spec_empty_receipt(), spec_empty_receipt()),
                ..old(self)@
            }),
    {
        self.internal_charge.reset_charge(ChargeCycle::Even);
        self.internal_charge.reset_charge(ChargeCycle::Odd);
        self.fire_tracker.clear_receipts();
    }
}

/// What `ActuatorNeuron::run_cycle` does.  When the neuron does not fire,
/// its exposed measure keeps its previous value.
pub open spec fn spec_actuator_cycle(v: ActuatorView, cycle: ChargeCycle) -> ActuatorView {
    let fired = spec_total_weight(v.charge, cycle) > v.fire_threshold;
    let measure: u64 = if fired {
        spec_weighted_average(v.charge, cycle) as u64
    } else {
        0u64
    };
    ActuatorView {
        charge: spec_reset(v.charge, cycle),
        receipts: spec_set_receipt(v.receipts, cycle, FireReceipt { fired, measure }),
        measure: if fired {
            measure
        } else {
            v.measure
        },
        ..v
    }
}

/// The capability every neuron role shares: run the local part of one
/// cycle — the firing decision, the receipt bookkeeping and the parity
/// reset — and clear accumulated state.  Transmission down the synapse
/// lists is driven by the network, which owns the target arenas.
pub trait Neuronic: Sized {
    /// The role's structural invariant.
    spec fn n_wf(&self) -> bool;

    /// The neuron's outgoing wiring: plasticity-eligible list, static list.
    spec fn n_wiring(&self) -> (Seq<Synapse>, Seq<Synapse>);

    fn run_cycle(&mut self, cycle: ChargeCycle)
        requires
            old(self).n_wf(),
        ensures
            final(self).n_wf(),
            final(self).n_wiring() == old(self).n_wiring(),
    ;

    fn run_static_cycle(&mut self, cycle: ChargeCycle)
        requires
            old(self).n_wf(),
        ensures
            final(self).n_wf(),
            final(self).n_wiring() == old(self).n_wiring(),
    ;

    fn clear(&mut self)
        requires
            old(self).n_wf(),
        ensures
            final(self).n_wf(),
            final(self).n_wiring() == old(self).n_wiring(),
    ;
}

impl Neuronic for SensoryNeuron {
    open spec fn n_wf(&self) -> bool {
        self@.wf()
    }

    open spec fn n_wiring(&self) -> (Seq<Synapse>, Seq<Synapse>) {
        (self@.plastic, self@.statics)
    }

    fn run_cycle(&mut self, cycle: ChargeCycle) {
        let _ = SensoryNeuron::begin_cycle(self, cycle);
    }

    fn run_static_cycle(&mut self, cycle: ChargeCycle) {
        let _ = SensoryNeuron::begin_cycle(self, cycle);
    }

    fn clear(&mut self) {
        SensoryNeuron::clear(self);
    }
}

impl Neuronic for PlasticNeuron {
    open spec fn n_wf(&self) -> bool {
        self@.wf()
    }

    open spec fn n_wiring(&self) -> (Seq<Synapse>, Seq<Synapse>) {
        (self@.plastic, self@.statics)
    }

    fn run_cycle(&mut self, cycle: ChargeCycle) {
        let _ = PlasticNeuron::begin_cycle(self, cycle);
    }

    fn run_static_cycle(&mut self, cycle: ChargeCycle) {
        let _ = PlasticNeuron::begin_cycle(self, cycle);
    }

    fn clear(&mut self) {
        PlasticNeuron::clear(self);
    }
}

impl Neuronic for ActuatorNeuron {
    open spec fn n_wf(&self) -> bool {
        self@.wf()
    }

    open spec fn n_wiring(&self) -> (Seq<Synapse>, Seq<Synapse>) {
        (Seq::empty(), Seq::empty())
    }

    fn run_cycle(&mut self, cycle: ChargeCycle) {
        ActuatorNeuron::run_cycle(self, cycle);
    }

    fn run_static_cycle(&mut self, cycle: ChargeCycle) {
        ActuatorNeuron::run_static_cycle(self, cycle);
    }

    fn clear(&mut self) {
        ActuatorNeuron::clear(self);
    }
}

/// The capability of a neuron that receives impulses: a charge accumulator
/// to deposit into, and fire receipts to answer co-firing queries from.
pub trait RxNeuronic: Sized {
    spec fn rx_wf(&self) -> bool;

    spec fn rx_charge(&self) -> ChargeView;

    spec fn rx_receipts(&self) -> (FireReceipt, FireReceipt);

    fn intake_synaptic_impulse(&mut self, cycle: ChargeCycle, impulse: Impulse, synapse_type: SynapseType)
        requires
            old(self).rx_wf(),
            impulse.wf(),
        ensures
            final(self).rx_wf(),
            final(self).rx_charge() == spec_intake(old(self).rx_charge(), cycle, impulse, synapse_type),
            final(self).rx_receipts() == old(self).rx_receipts(),
    ;

    fn get_fire_receipt(&self, cycle: ChargeCycle) -> (r: FireReceipt)
        ensures
            r == spec_get_receipt(self.rx_receipts(), cycle.spec_next_cycle()),
    ;
}

impl RxNeuronic for PlasticNeuron {
    open spec fn rx_wf(&self) -> bool {
        self@.wf()
    }

    open spec fn rx_charge(&self) -> ChargeView {
        self@.charge
    }

    open spec fn rx_receipts(&self) -> (FireReceipt, FireReceipt) {
        self@.receipts
    }

    fn intake_synaptic_impulse(&mut self, cycle: ChargeCycle, impulse: Impulse, synapse_type: SynapseType) {
        PlasticNeuron::intake_synaptic_impulse(self, cycle, impulse, synapse_type);
    }

    fn get_fire_receipt(&self, cycle: ChargeCycle) -> (r: FireReceipt) {
        PlasticNeuron::get_fire_receipt(self, cycle)
    }
}

impl RxNeuronic for ActuatorNeuron {
    open spec fn rx_wf(&self) -> bool {
        self@.wf()
    }

    open spec fn rx_charge(&self) -> ChargeView {
        self@.charge
    }

    open spec fn rx_receipts(&self) -> (FireReceipt, FireReceipt) {
        self@.receipts
    }

    fn intake_synaptic_impulse(&mut self, cycle: ChargeCycle, impulse: Impulse, synapse_type: SynapseType) {
        ActuatorNeuron::intake_synaptic_impulse(self, cycle, impulse, synapse_type);
    }

    fn get_fire_receipt(&self, cycle: ChargeCycle) -> (r: FireReceipt) {
        ActuatorNeuron::get_fire_receipt(self, cycle)
    }
}

/// The capability of a neuron that transmits: two owned synapse lists, the
/// plasticity-eligible one first.
pub trait TxNeuronic: Sized {
    spec fn tx_plastic(&self) -> Seq<Synapse>;

    spec fn tx_statics(&self) -> Seq<Synapse>;

    fn add_plastic_synapse(&mut self, weight: u64, synapse_type: SynapseType, target: SynapseTarget)
        ensures
            final(self).tx_plastic() == old(self).tx_plastic().push(
                Synapse { synapse_type, weight, target },
            ),
            final(self).tx_statics() == old(self).tx_statics(),
    ;

    fn add_static_synapse(&mut self, weight: u64, synapse_type: SynapseType, target: SynapseTarget)
        ensures
            final(self).tx_statics() == old(self).tx_statics().push(
                Synapse { synapse_type, weight, target },
            ),
            final(self).tx_plastic() == old(self).tx_plastic(),
    ;

    fn get_plastic_synapses(&self) -> (r: &Vec<Synapse>)
        ensures
            r@ == self.tx_plastic(),
    ;

    fn get_static_synapses(&self) -> (r: &Vec<Synapse>)
        ensures
            r@ == self.tx_statics(),
    ;
}

impl TxNeuronic for SensoryNeuron {
    open spec fn tx_plastic(&self) -> Seq<Synapse> {
        self@.plastic
    }

    open spec fn tx_statics(&self) -> Seq<Synapse> {
        self@.statics
    }

    fn add_plastic_synapse(&mut self, weight: u64, synapse_type: SynapseType, target: SynapseTarget) {
        SensoryNeuron::add_plastic_synapse(self, weight, synapse_type, target);
    }

    fn add_static_synapse(&mut self, weight: u64, synapse_type: SynapseType, target: SynapseTarget) {
        SensoryNeuron::add_static_synapse(self, weight, synapse_type, target);
    }

    fn get_plastic_synapses(&self) -> (r: &Vec<Synapse>) {
        SensoryNeuron::get_plastic_synapses(self)
    }

    fn get_static_synapses(&self) -> (r: &Vec<Synapse>) {
        SensoryNeuron::get_static_synapses(self)
    }
}

impl TxNeuronic for PlasticNeuron {
    open spec fn tx_plastic(&self) -> Seq<Synapse> {
        self@.plastic
    }

    open spec fn tx_statics(&self) -> Seq<Synapse> {
        self@.statics
    }

    fn add_plastic_synapse(&mut self, weight: u64, synapse_type: SynapseType, target: SynapseTarget) {
        PlasticNeuron::add_plastic_synapse(self, weight, synapse_type, target);
    }

    fn add_static_synapse(&mut self, weight: u64, synapse_type: SynapseType, target: SynapseTarget) {
        PlasticNeuron::add_static_synapse(self, weight, synapse_type, target);
    }

    fn get_plastic_synapses(&self) -> (r: &Vec<Synapse>) {
        PlasticNeuron::get_plastic_synapses(self)
    }

    fn get_static_synapses(&self) -> (r: &Vec<Synapse>) {
        PlasticNeuron::get_static_synapses(self)
    }
}

/// The views of every neuron in an arena.
pub open spec fn plastic_views(v: Seq<PlasticNeuron>) -> Seq<PlasticView> {
    v.map_values(|n: PlasticNeuron| n@)
}

pub open spec fn actuator_views(v: Seq<ActuatorNeuron>) -> Seq<ActuatorView> {
    v.map_values(|n: ActuatorNeuron| n@)
}

/// The receipt a synapse's target wrote in response to what this source sent
/// it two cycles ago.
pub open spec fn spec_target_receipt(
    pa: Seq<PlasticView>,
    aa: Seq<ActuatorView>,
    target: SynapseTarget,
    cycle: ChargeCycle,
) -> FireReceipt {
    match target {
        SynapseTarget::Plastic(i) => spec_get_receipt(pa[i as int].receipts, cycle.spec_next_cycle()),
        SynapseTarget::Actuator(i) => spec_get_receipt(aa[i as int].receipts, cycle.spec_next_cycle()),
    }
}

/// Deposit an impulse into a synapse's target.
pub open spec fn spec_deposit_target(
    pa: Seq<PlasticView>,
    aa: Seq<ActuatorView>,
    target: SynapseTarget,
    cycle: ChargeCycle,
    impulse: Impulse,
    synapse_type: SynapseType,
) -> (Seq<PlasticView>, Seq<ActuatorView>) {
    match target {
        SynapseTarget::Plastic(i) => (
            pa.update(i as int, PlasticView {
                charge: spec_intake(pa[i as int].charge, cycle, impulse, synapse_type),
                ..pa[i as int]
            }),
            aa,
        ),
        SynapseTarget::Actuator(i) => (
            pa,
            aa.update(i as int, ActuatorView {
                charge: spec_intake(aa[i as int].charge, cycle, impulse, synapse_type),
                ..aa[i as int]
            }),
        ),
    }
}

/// One synapse's share of a transmission step: if the source fired, deposit
/// the impulse into the target; then, when the synapse is
/// plasticity-eligible and both the source's two-cycles-ago receipt and the
/// target's answering receipt show a firing, adjust the weight by the
/// modifier, floor-clamped at zero.
pub open spec fn spec_step_synapse<M: WeightModifier>(
    m: M,
    syn: Synapse,
    cycle: ChargeCycle,
    fire: bool,
    measure: u64,
    prev: FireReceipt,
    eligible: bool,
    pa: Seq<PlasticView>,
    aa: Seq<ActuatorView>,
) -> (Synapse, Seq<PlasticView>, Seq<ActuatorView>) {
    let (pa1, aa1) = if fire {
        spec_deposit_target(pa, aa, syn.target, cycle, Impulse { weight: syn.weight, measure }, syn.synapse_type)
    } else {
        (pa, aa)
    };
    let tr = spec_target_receipt(pa1, aa1, syn.target, cycle);
    let syn2 = if eligible && tr.fired && prev.fired {
        Synapse { weight: spec_apply_delta(syn.weight, m.spec_delta(tr.measure, prev.measure)), ..syn }
    } else {
        syn
    };
    (syn2, pa1, aa1)
}

/// A whole synapse list fired in order, starting from position `k`.
pub open spec fn spec_transmit(
    m: impl WeightModifier,
    syns: Seq<Synapse>,
    k: nat,
    cycle: ChargeCycle,
    fire: bool,
    measure: u64,
    prev: FireReceipt,
    eligible: bool,
    pa: Seq<PlasticView>,
    aa: Seq<ActuatorView>,
) -> (Seq<Synapse>, Seq<PlasticView>, Seq<ActuatorView>)
    decreases syns.len() - k,
{
    if k >= syns.len() {
        (syns, pa, aa)
    } else {
        let (syn2, pa1, aa1) = spec_step_synapse(m, syns[k as int], cycle, fire, measure, prev, eligible, pa, aa);
        spec_transmit(m, syns.update(k as int, syn2), k + 1, cycle, fire, measure, prev, eligible, pa1, aa1)
    }
}

/// Fire one synapse list against the population arenas and apply the
/// plasticity rule to it.  `eligible` is false for a static (reflex) list:
/// its weights are immutable.  `prev` is the source's receipt from two
/// cycles ago; a static cycle passes an empty receipt instead, which
/// disables all weight adjustment.
pub fn transmit_synapses<M: WeightModifier>(
    modifier: &M,
    synapses: &mut Vec<Synapse>,
    eligible: bool,
    cycle: ChargeCycle,
    fire: bool,
    measure: u64,
    prev: FireReceipt,
    plastic_arena: &mut Vec<PlasticNeuron>,
    actuator_arena: &mut Vec<ActuatorNeuron>,
)
    requires
        synapses_wf(old(synapses)@, old(plastic_arena)@.len(), old(actuator_arena)@.len()),
        plastic_arena_wf(plastic_views(old(plastic_arena)@)),
        actuator_arena_wf(actuator_views(old(actuator_arena)@)),
        measure <= MEASURE_SCALE,
        prev.wf(),
    ensures
        (final(synapses)@, plastic_views(final(plastic_arena)@), actuator_views(final(actuator_arena)@))
            == spec_transmit(
                *modifier,
                old(synapses)@,
                0,
                cycle,
                fire,
                measure,
                prev,
                eligible,
                plastic_views(old(plastic_arena)@),
                actuator_views(old(actuator_arena)@),
            ),
        final(plastic_arena)@.len() == old(plastic_arena)@.len(),
        final(actuator_arena)@.len() == old(actuator_arena)@.len(),
        synapses_wf(final(synapses)@, old(plastic_arena)@.len(), old(actuator_arena)@.len()),
        final(synapses)@.len() == old(synapses)@.len(),
        plastic_arena_wf(plastic_views(final(plastic_arena)@)),
        actuator_arena_wf(actuator_views(final(actuator_arena)@)),
{
    let ghost m0 = *modifier;
    let ghost syns0 = synapses@;
    let ghost pa0 = plastic_views(plastic_arena@);
    let ghost aa0 = actuator_views(actuator_arena@);
    let mut i: usize = 0;
    while i < synapses.len()
        invariant
            m0 == *modifier,
            i <= synapses@.len(),
            synapses@.len() == syns0.len(),
            synapses_wf(synapses@, plastic_arena@.len(), actuator_arena@.len()),
            plastic_arena@.len() == pa0.len(),
            actuator_arena@.len() == aa0.len(),
            plastic_arena_wf(plastic_views(plastic_arena@)),
            actuator_arena_wf(actuator_views(actuator_arena@)),
            measure <= MEASURE_SCALE,
            prev.wf(),
            spec_transmit(
                m0,
                synapses@,
                i as nat,
                cycle,
                fire,
                measure,
                prev,
                eligible,
                plastic_views(plastic_arena@),
                actuator_views(actuator_arena@),
            ) == spec_transmit(m0, syns0, 0, cycle, fire, measure, prev, eligible, pa0, aa0),
        decreases synapses@.len() - i,
    {
        let ghost syns_in = synapses@;
        let ghost pa_in = plastic_views(plastic_arena@);
        let ghost aa_in = actuator_views(actuator_arena@);
        let syn = synapses[i];
        if fire {
            let impulse = Impulse::new(syn.weight, measure);
            match syn.target {
                SynapseTarget::Plastic(t) => {
                    let tn = &mut plastic_arena[t];
                    tn.intake_synaptic_impulse(cycle, impulse, syn.synapse_type);
                }
                SynapseTarget::Actuator(t) => {
                    let tn = &mut actuator_arena[t];
                    tn.intake_synaptic_impulse(cycle, impulse, syn.synapse_type);
                }
            }
            proof {
                let (pa1, aa1) = spec_deposit_target(pa_in, aa_in, syn.target, cycle, impulse, syn.synapse_type);
                assert(plastic_views(plastic_arena@) =~= pa1);
                assert(actuator_views(actuator_arena@) =~= aa1);
            }
        }
        let tr = match syn.target {
            SynapseTarget::Plastic(t) => plastic_arena[t].get_fire_receipt(cycle),
            SynapseTarget::Actuator(t) => actuator_arena[t].get_fire_receipt(cycle),
        };
        if eligible && tr.fired && prev.fired {
            let d = modifier.delta(tr.measure, prev.measure);
            let syn2 = Synapse { weight: apply_weight_delta(syn.weight, d), ..syn };
            synapses.set(i, syn2);
            proof {
                assert(d == m0.spec_delta(tr.measure, prev.measure));
                assert(syn2.weight == spec_apply_delta(syn.weight, d));
            }
        }
        proof {
            let (s2, pa1, aa1) = spec_step_synapse(m0, syns_in[i as int], cycle, fire, measure, prev, eligible, pa_in, aa_in);
            assert(syn == syns_in[i as int]);
            assert(plastic_views(plastic_arena@) =~= pa1);
            assert(actuator_views(actuator_arena@) =~= aa1);
            assert(tr == spec_target_receipt(pa1, aa1, syn.target, cycle));
            if eligible && tr.fired && prev.fired {
                assert(s2 == (Synapse {
                    weight: spec_apply_delta(syn.weight, m0.spec_delta(tr.measure, prev.measure)),
                    ..syn
                }));
            } else {
                assert(s2 == syn);
            }
            assert(synapses@ =~= syns_in.update(i as int, s2));
            assert(plastic_views(plastic_arena@) =~= pa1);
            assert(actuator_views(actuator_arena@) =~= aa1);
        }
        i = i + 1;
    }
    proof {
        assert(spec_transmit(
            m0,
            synapses@,
            i as nat,
            cycle,
            fire,
            measure,
            prev,
            eligible,
            plastic_views(plastic_arena@),
            actuator_views(actuator_arena@),
        ) == (synapses@, plastic_views(plastic_arena@), actuator_views(actuator_arena@)));
    }
}

/// Transmission changes no arena's population: the lists keep their
/// lengths.
pub proof fn lemma_transmit_lens(
    m: impl WeightModifier,
    syns: Seq<Synapse>,
    k: nat,
    cycle: ChargeCycle,
    fire: bool,
    measure: u64,
    prev: FireReceipt,
    eligible: bool,
    pa: Seq<PlasticView>,
    aa: Seq<ActuatorView>,
)
    requires
        synapses_wf(syns, pa.len(), aa.len()),
    ensures
        spec_transmit(m, syns, k, cycle, fire, measure, prev, eligible, pa, aa).0.len() == syns.len(),
        spec_transmit(m, syns, k, cycle, fire, measure, prev, eligible, pa, aa).1.len() == pa.len(),
        spec_transmit(m, syns, k, cycle, fire, measure, prev, eligible, pa, aa).2.len() == aa.len(),
    decreases syns.len() - k,
{
    if k < syns.len() {
        let s = syns[k as int];
        let (syn2, pa1, aa1) = spec_step_synapse(m, s, cycle, fire, measure, prev, eligible, pa, aa);
        assert(pa1.len() == pa.len() && aa1.len() == aa.len()) by {
            if fire {
                let imp = Impulse { weight: s.weight, measure };
                let (pa_d, aa_d) = spec_deposit_target(pa, aa, s.target, cycle, imp, s.synapse_type);
                assert(pa1 == pa_d && aa1 == aa_d);
                match s.target {
                    SynapseTarget::Plastic(i) => {
                        assert(pa_d.len() == pa.len());
                    }
                    SynapseTarget::Actuator(i) => {
                        assert(aa_d.len() == aa.len());
                    }
                }
            }
        }
        assert(synapses_wf(syns.update(k as int, syn2), pa1.len(), aa1.len())) by {
            assert forall|j: int| 0 <= j < syns.len()
                implies (#[trigger] syns.update(k as int, syn2)[j]).target.wf(pa1.len(), aa1.len()) by {
                if j != k {
                    assert(syns.update(k as int, syn2)[j] == syns[j]);
                } else {
                    assert(syns.update(k as int, syn2)[j] == syn2 && syn2.target == s.target);
                }
            }
        }
        lemma_transmit_lens(m, syns.update(k as int, syn2), k + 1, cycle, fire, measure, prev, eligible, pa1, aa1);
        assert(syns.update(k as int, syn2).len() == syns.len());
    }
}

/// Transmission deposits charge into its targets but never touches any
/// target's own synapse lists or firing threshold.
pub proof fn lemma_transmit_keeps_lists(
    m: impl WeightModifier,
    syns: Seq<Synapse>,
    k: nat,
    cycle: ChargeCycle,
    fire: bool,
    measure: u64,
    prev: FireReceipt,
    eligible: bool,
    pa: Seq<PlasticView>,
    aa: Seq<ActuatorView>,
)
    requires
        synapses_wf(syns, pa.len(), aa.len()),
    ensures
        ({
            let r = spec_transmit(m, syns, k, cycle, fire, measure, prev, eligible, pa, aa);
            forall|q: int| 0 <= q < pa.len() ==> {
                &&& (#[trigger] r.1[q]).plastic == pa[q].plastic
                &&& r.1[q].statics == pa[q].statics
                &&& r.1[q].fire_threshold == pa[q].fire_threshold
            }
        }),
    decreases syns.len() - k,
{
    lemma_transmit_lens(m, syns, k, cycle, fire, measure, prev, eligible, pa, aa);
    if k < syns.len() {
        let s = syns[k as int];
        let (syn2, pa1, aa1) = spec_step_synapse(m, s, cycle, fire, measure, prev, eligible, pa, aa);
        assert(pa1.len() == pa.len() && aa1.len() == aa.len()) by {
            if fire {
                let imp = Impulse { weight: s.weight, measure };
                let (pa_d, aa_d) = spec_deposit_target(pa, aa, s.target, cycle, imp, s.synapse_type);
                assert(pa1 == pa_d && aa1 == aa_d);
            }
        }
        assert(synapses_wf(syns.update(k as int, syn2), pa1.len(), aa1.len())) by {
            assert forall|j: int| 0 <= j < syns.len()
                implies (#[trigger] syns.update(k as int, syn2)[j]).target.wf(pa1.len(), aa1.len()) by {
                if j != k {
                    assert(syns.update(k as int, syn2)[j] == syns[j]);
                } else {
                    assert(syns.update(k as int, syn2)[j] == syn2 && syn2.target == s.target);
                }
            }
        }
        lemma_transmit_keeps_lists(m, syns.update(k as int, syn2), k + 1, cycle, fire, measure, prev, eligible, pa1, aa1);
        assert forall|q: int| 0 <= q < pa.len() implies {
            &&& (#[trigger] pa1[q]).plastic == pa[q].plastic
            &&& pa1[q].statics == pa[q].statics
            &&& pa1[q].fire_threshold == pa[q].fire_threshold
        } by {
            if fire {
                let (pa_d, aa_d) = spec_deposit_target(pa, aa, s.target, cycle, Impulse { weight: s.weight, measure }, s.synapse_type);
                assert(pa1 == pa_d);
            }
        }
        let r = spec_transmit(m, syns, k, cycle, fire, measure, prev, eligible, pa, aa);
        let r2 = spec_transmit(m, syns.update(k as int, syn2), k + 1, cycle, fire, measure, prev, eligible, pa1, aa1);
        assert(r == r2);
        assert forall|q: int| 0 <= q < pa.len() implies {
            &&& (#[trigger] r.1[q]).plastic == pa[q].plastic
            &&& r.1[q].statics == pa[q].statics
            &&& r.1[q].fire_threshold == pa[q].fire_threshold
        } by {
            assert(r2.1[q].plastic == pa1[q].plastic);
            assert(r2.1[q].statics == pa1[q].statics);
            assert(r2.1[q].fire_threshold == pa1[q].fire_threshold);
        }
    }
}

/// The plasticity rule adjusts weights only: each synapse keeps its target
/// and its type through a transmission.
pub proof fn lemma_transmit_keeps_targets(
    m: impl WeightModifier,
    syns: Seq<Synapse>,
    k: nat,
    cycle: ChargeCycle,
    fire: bool,
    measure: u64,
    prev: FireReceipt,
    eligible: bool,
    pa: Seq<PlasticView>,
    aa: Seq<ActuatorView>,
)
    ensures
        ({
            let r = spec_transmit(m, syns, k, cycle, fire, measure, prev, eligible, pa, aa);
            forall|j: int| 0 <= j < syns.len() ==> {
                &&& (#[trigger] r.0[j]).target == syns[j].target
                &&& r.0[j].synapse_type == syns[j].synapse_type
            }
        }),
        spec_transmit(m, syns, k, cycle, fire, measure, prev, eligible, pa, aa).0.len() == syns.len(),
    decreases syns.len() - k,
{
    if k < syns.len() {
        let (syn2, pa1, aa1) = spec_step_synapse(m, syns[k as int], cycle, fire, measure, prev, eligible, pa, aa);
        lemma_transmit_keeps_targets(m, syns.update(k as int, syn2), k + 1, cycle, fire, measure, prev, eligible, pa1, aa1);
        assert forall|j: int| 0 <= j < syns.len() implies {
            &&& (#[trigger] syns.update(k as int, syn2)[j]).target == syns[j].target
            &&& syns.update(k as int, syn2)[j].synapse_type == syns[j].synapse_type
        } by {
            if j != k {
                assert(syns.update(k as int, syn2)[j] == syns[j]);
            }
        }
    }
}

/// Transmission with co-firing detection disabled — a static pass, or any
/// synapse list that is not plasticity-eligible — never alters a synapse
/// weight, whatever the arenas hold: the synapse list comes back unchanged.
pub proof fn lemma_static_transmission_keeps_weights(
    m: impl WeightModifier,
    syns: Seq<Synapse>,
    k: nat,
    cycle: ChargeCycle,
    fire: bool,
    measure: u64,
    prev: FireReceipt,
    eligible: bool,
    pa: Seq<PlasticView>,
    aa: Seq<ActuatorView>,
)
    requires
        !eligible || !prev.fired,
    ensures
        spec_transmit(m, syns, k, cycle, fire, measure, prev, eligible, pa, aa).0 == syns,
    decreases syns.len() - k,
{
    if k < syns.len() {
        let (syn2, pa1, aa1) = spec_step_synapse(m, syns[k as int], cycle, fire, measure, prev, eligible, pa, aa);
        assert(syn2 == syns[k as int]);
        assert(syns.update(k as int, syn2) =~= syns);
        lemma_static_transmission_keeps_weights(m, syns, k + 1, cycle, fire, measure, prev, eligible, pa1, aa1);
    }
}

/// Depositing towards the parity after `cycle` never changes what the other
/// buffer — the one read during `cycle` itself — reports: total weight and
/// weighted average of `cycle` are unchanged.
pub proof fn lemma_deposit_isolation(
    cv: ChargeView,
    cycle: ChargeCycle,
    measure: u64,
    delta_charge: int,
    delta_weight: int,
)
    requires
        cv.wf(),
    ensures
        spec_total_weight(spec_deposit(cv, cycle, measure, delta_charge, delta_weight), cycle)
            == spec_total_weight(cv, cycle),
        spec_weighted_average(spec_deposit(cv, cycle, measure, delta_charge, delta_weight), cycle)
            == spec_weighted_average(cv, cycle),
{
    let post = spec_deposit(cv, cycle, measure, delta_charge, delta_weight);
    assert(post.charges(cycle) =~= cv.charges(cycle));
    assert(post.weights(cycle) =~= cv.weights(cycle));
}

} // verus!
