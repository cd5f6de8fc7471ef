//! The trail field: two grids of equal shape, the settled one and a working
//! one, with deposition, diffusion and the exchange of their roles.
use vstd::prelude::*;
use vstd::arithmetic::div_mod::{lemma_div_multiples_vanish_quotient, lemma_fundamental_div_mod, lemma_mod_bound, lemma_small_mod, lemma_mod_add_multiples_vanish};
use vstd::seq_lib::to_multiset_build;
use vstd::multiset::Multiset;
use crate::units::{UNIT, wrapped};
use crate::params::{ConfigError, MAX_SIDE};

verus! {

/// The mathematical content of a field: intensities by row-major cell.
pub struct Grid {
    pub width: int,
    pub height: int,
    pub cells: Seq<int>,
}

/// Why a frame could not be completed.
#[derive(Clone, Copy, Debug, PartialEq, Eq, Structural)]
pub enum StepError {
    /// A cell would hold more trail than a cell can represent.
    NumericDegeneracy,
    /// The pass asked for is not the one the frame is waiting for.
    OutOfPhase,
}

/// Sum of all entries.
pub open spec fn sum(s: Seq<int>) -> int
    decreases s.len(),
{
    if s.len() == 0 {
        0
    } else {
        sum(s.drop_last()) + s.last()
    }
}

impl Grid {
    pub open spec fn wf(self) -> bool {
        &&& self.width > 0
        &&& self.height > 0
        &&& self.cells.len() == self.width * self.height
    }

    /// Every cell fits a machine cell.
    pub open spec fn fits(self) -> bool {
        forall|c: int| 0 <= c < self.cells.len() ==> 0 <= #[trigger] self.cells[c] <= u64::MAX
    }

    /// Intensity at column `x`, row `y`, both taken on the torus.
    pub open spec fn at(self, x: int, y: int) -> int {
        self.cells[wrapped(y, self.height) * self.width + wrapped(x, self.width)]
    }

    /// Sum over the three-by-three block of cells centred on `(x, y)`.
    pub open spec fn block_sum(self, x: int, y: int) -> int {
        self.at(x - 1, y - 1) + self.at(x, y - 1) + self.at(x + 1, y - 1)
            + self.at(x - 1, y) + self.at(x, y) + self.at(x + 1, y)
            + self.at(x - 1, y + 1) + self.at(x, y + 1) + self.at(x + 1, y + 1)
    }

    /// The value of cell `c` after one diffusion step: the decay factor
    /// times the mean of its block, rounded down.
    pub open spec fn diffused_cell(self, decay: int, c: int) -> int {
        (decay * self.block_sum(c % self.width, c / self.width)) / (9 * UNIT)
    }

    /// The field after one diffusion step.
    pub open spec fn diffused(self, decay: int) -> Grid {
        Grid {
            width: self.width,
            height: self.height,
            cells: Seq::new(self.cells.len(), |c: int| self.diffused_cell(decay, c)),
        }
    }

    /// The field after each entry of `targets` has added `amount` to the
    /// cell it names.
    pub open spec fn deposited(self, targets: Seq<usize>, amount: int) -> Grid {
        Grid {
            width: self.width,
            height: self.height,
            cells: Seq::new(
                self.cells.len(),
                |c: int| self.cells[c] + amount * targets.to_multiset().count(c as usize),
            ),
        }
    }

    /// Total trail held by the field.
    pub open spec fn total(self) -> int {
        sum(self.cells)
    }
}

/// Row-major indices of in-range coordinates are in range.
pub proof fn lemma_index_in_range(x: int, y: int, width: int, height: int)
    requires
        0 <= x < width,
        0 <= y < height,
    ensures
        0 <= y * width + x < width * height,
{
    assert(y * width + x < width * height) by (nonlinear_arith)
        requires
            0 <= x < width,
            0 <= y < height,
    ;
    assert(0 <= y * width) by (nonlinear_arith)
        requires
            0 <= y,
            0 < width,
    ;
}

/// The torus neighbours of an in-range coordinate.
pub proof fn lemma_wrapped_neighbours(x: int, extent: int)
    requires
        0 <= x < extent,
    ensures
        wrapped(x, extent) == x,
        wrapped(x - 1, extent) == (if x == 0 { extent - 1 } else { x - 1 }),
        wrapped(x + 1, extent) == (if x == extent - 1 { 0 } else { x + 1 }),
{
    lemma_small_mod(x as nat, extent as nat);
    if x == 0 {
        lemma_mod_add_multiples_vanish(-1, extent);
        lemma_small_mod((extent - 1) as nat, extent as nat);
    } else {
        lemma_small_mod((x - 1) as nat, extent as nat);
    }
    if x == extent - 1 {
        lemma_mod_add_multiples_vanish(0, extent);
        lemma_small_mod(0, extent as nat);
    } else {
        lemma_small_mod((x + 1) as nat, extent as nat);
    }
}

/// Every block cell of a well-formed grid is one of its cells.
pub proof fn lemma_at_in_range(g: Grid, x: int, y: int)
    requires
        g.wf(),
    ensures
        0 <= wrapped(y, g.height) * g.width + wrapped(x, g.width) < g.cells.len(),
{
    lemma_mod_bound(x, g.width);
    lemma_mod_bound(y, g.height);
    lemma_index_in_range(wrapped(x, g.width), wrapped(y, g.height), g.width, g.height);
}

/// Diffusing a field that holds `v` in every cell gives a field that holds
/// the decay factor times `v`, rounded down, in every cell.
pub proof fn lemma_uniform_decay(g: Grid, v: int, decay: int)
    requires
        g.wf(),
        v >= 0,
        decay >= 0,
        forall|c: int| 0 <= c < g.cells.len() ==> g.cells[c] == v,
    ensures
        g.diffused(decay).wf(),
        forall|c: int|
            0 <= c < g.cells.len() ==> #[trigger] g.diffused(decay).cells[c] == (decay * v) / (
            UNIT as int),
{
    assert forall|c: int| 0 <= c < g.cells.len() implies #[trigger] g.diffused(decay).cells[c] == (
    decay * v) / (UNIT as int) by {
        let x = c % g.width;
        let y = c / g.width;
        lemma_at_in_range(g, x - 1, y - 1);
        lemma_at_in_range(g, x, y - 1);
        lemma_at_in_range(g, x + 1, y - 1);
        lemma_at_in_range(g, x - 1, y);
        lemma_at_in_range(g, x, y);
        lemma_at_in_range(g, x + 1, y);
        lemma_at_in_range(g, x - 1, y + 1);
        lemma_at_in_range(g, x, y + 1);
        lemma_at_in_range(g, x + 1, y + 1);
        assert(g.block_sum(x, y) == 9 * v);
        assert(decay * (9 * v) == 9 * (decay * v)) by (nonlinear_arith);
        assert(decay * v >= 0) by (nonlinear_arith)
            requires
                decay >= 0,
                v >= 0,
        ;
        lemma_div_multiples_vanish_quotient(9, decay * v, UNIT as int);
    }
}

/// Diffusion never raises the peak: where no cell exceeds `bound` and the
/// decay factor is at most one, no cell exceeds `bound` afterwards; and
/// intensities stay non-negative.
pub proof fn lemma_diffused_bounds(g: Grid, bound: int, decay: int)
    requires
        g.wf(),
        0 <= decay <= UNIT,
        forall|c: int| 0 <= c < g.cells.len() ==> 0 <= #[trigger] g.cells[c] <= bound,
    ensures
        forall|c: int|
            0 <= c < g.cells.len() ==> 0 <= #[trigger] g.diffused(decay).cells[c] <= bound,
{
    assert forall|c: int| 0 <= c < g.cells.len() implies 0 <= #[trigger] g.diffused(
        decay,
    ).cells[c] <= bound by {
        let x = c % g.width;
        let y = c / g.width;
        lemma_at_in_range(g, x - 1, y - 1);
        lemma_at_in_range(g, x, y - 1);
        lemma_at_in_range(g, x + 1, y - 1);
        lemma_at_in_range(g, x - 1, y);
        lemma_at_in_range(g, x, y);
        lemma_at_in_range(g, x + 1, y);
        lemma_at_in_range(g, x - 1, y + 1);
        lemma_at_in_range(g, x, y + 1);
        lemma_at_in_range(g, x + 1, y + 1);
        let s = g.block_sum(x, y);
        assert(0 <= s <= 9 * bound);
        lemma_scaled_mean_bounds(s, bound, decay);
    }
}

/// The decayed mean of nine values that sum to `s`, each at most `bound`.
pub proof fn lemma_scaled_mean_bounds(s: int, bound: int, decay: int)
    requires
        0 <= s <= 9 * bound,
        0 <= decay <= UNIT,
    ensures
        0 <= (decay * s) / (9 * UNIT) <= bound,
{
    let d = 9 * UNIT as int;
    assert(0 <= decay * s <= d * bound) by (nonlinear_arith)
        requires
            0 <= s <= 9 * bound,
            0 <= decay <= UNIT,
            d == 9 * UNIT,
    ;
    assert(0 <= (decay * s) / d <= bound) by (nonlinear_arith)
        requires
            0 <= decay * s <= d * bound,
            d > 0,
    ;
}


/// The trail field with its two buffers. `current` is the settled grid that
/// sensing and rendering read; `next` is the buffer a pass writes before the
/// roles are exchanged.
pub struct Field {
    pub width: u32,
    pub height: u32,
    pub current: Vec<u64>,
    pub next: Vec<u64>,
}

impl View for Field {
    type V = Grid;

    /// The settled grid.
    open spec fn view(&self) -> Grid {
        Grid {
            width: self.width as int,
            height: self.height as int,
            cells: Seq::new(self.current@.len(), |c: int| self.current@[c] as int),
        }
    }
}

impl Field {
    /// Both buffers have the shape of the domain.
    pub open spec fn wf(&self) -> bool {
        &&& 0 < self.width <= MAX_SIDE
        &&& 0 < self.height <= MAX_SIDE
        &&& self.current@.len() == self.width * self.height
        &&& self.next@.len() == self.width * self.height
    }

    /// An empty field of the given shape.
    pub fn new(width: u32, height: u32) -> (r: Result<Field, ConfigError>)
        ensures
            (width == 0 || height == 0) ==> r == Err::<Field, ConfigError>(
                ConfigError::EmptyDomain,
            ),
            (width > 0 && height > 0 && (width > MAX_SIDE || height > MAX_SIDE)) ==> r == Err::<
                Field,
                ConfigError,
            >(ConfigError::DomainTooLarge),
            (0 < width <= MAX_SIDE && 0 < height <= MAX_SIDE) ==> r is Ok,
            r is Ok ==> {
                let f = r->Ok_0;
                &&& f.wf()
                &&& f.width == width
                &&& f.height == height
                &&& forall|c: int| 0 <= c < f@.cells.len() ==> #[trigger] f@.cells[c] == 0
            },
    {
        if width == 0 || height == 0 {
            return Err(ConfigError::EmptyDomain);
        }
        if width > MAX_SIDE || height > MAX_SIDE {
            return Err(ConfigError::DomainTooLarge);
        }
        assert(width * height <= 32_768 * 32_768) by (nonlinear_arith)
            requires
                0 < width <= 32_768,
                0 < height <= 32_768,
        ;
        let n: usize = (width as usize) * (height as usize);
        let current: Vec<u64> = vec![0u64; n];
        let next: Vec<u64> = vec![0u64; n];
        Ok(Field { width, height, current, next })
    }

    /// Number of cells.
    pub fn cell_count(&self) -> (n: usize)
        requires
            self.wf(),
        ensures
            n == self@.cells.len(),
            n == self.width * self.height,
    {
        self.current.len()
    }

    /// The settled intensity of cell `c`.
    pub fn level(&self, c: usize) -> (v: u64)
        requires
            self.wf(),
            c < self@.cells.len(),
        ensures
            v == self@.cells[c as int],
    {
        self.current[c]
    }

    /// Exchanges the roles of the two buffers.
    pub fn swap(&mut self)
        requires
            old(self).wf(),
        ensures
            final(self).wf(),
            final(self).width == old(self).width,
            final(self).height == old(self).height,
            final(self).current@ == old(self).next@,
            final(self).next@ == old(self).current@,
    {
        std::mem::swap(&mut self.current, &mut self.next);
    }

    /// One diffusion step: every cell becomes the decay factor times the
    /// mean of its three-by-three block on the torus, rounded down. The
    /// result is written to the working buffer, which then becomes current.
    pub fn diffuse(&mut self, decay: u32)
        requires
            old(self).wf(),
            decay <= UNIT,
        ensures
            final(self).wf(),
            final(self)@ == old(self)@.diffused(decay as int),
            final(self).next@ == old(self).current@,
    {
        let n: usize = self.current.len();
        let w: usize = self.width as usize;
        let h: usize = self.height as usize;
        let ghost g = self@;
        let mut c: usize = 0;
        while c < n
            invariant
                self.wf(),
                self@ == g,
                g.wf(),
                self.current@ == old(self).current@,
                self.width == old(self).width,
                self.height == old(self).height,
                n == self.current@.len(),
                w == self.width,
                h == self.height,
                decay <= UNIT,
                c <= n,
                forall|k: int| 0 <= k < c ==> #[trigger] self.next@[k] == g.diffused_cell(
                    decay as int, k),
            decreases n - c,
        {
            let x: usize = c % w;
            let y: usize = c / w;
            proof {
                lemma_fundamental_div_mod(c as int, w as int);
                lemma_mod_bound(c as int, w as int);
                assert(0 <= y < h) by (nonlinear_arith)
                    requires
                        c < w * h,
                        c == w * y + x,
                        0 <= x < w,
                        0 <= y,
                        w > 0,
                ;
                lemma_wrapped_neighbours(x as int, w as int);
                lemma_wrapped_neighbours(y as int, h as int);
            }
            let xl: usize = if x == 0 { w - 1 } else { x - 1 };
            let xr: usize = if x == w - 1 { 0 } else { x + 1 };
            let yu: usize = if y == 0 { h - 1 } else { y - 1 };
            let yd: usize = if y == h - 1 { 0 } else { y + 1 };
            proof {
                lemma_index_in_range(xl as int, yu as int, w as int, h as int);
                lemma_index_in_range(x as int, yu as int, w as int, h as int);
                lemma_index_in_range(xr as int, yu as int, w as int, h as int);
                lemma_index_in_range(xl as int, y as int, w as int, h as int);
                lemma_index_in_range(x as int, y as int, w as int, h as int);
                lemma_index_in_range(xr as int, y as int, w as int, h as int);
                lemma_index_in_range(xl as int, yd as int, w as int, h as int);
                lemma_index_in_range(x as int, yd as int, w as int, h as int);
                lemma_index_in_range(xr as int, yd as int, w as int, h as int);
            }
            let s: u128 = self.current[yu * w + xl] as u128 + self.current[yu * w + x] as u128
                + self.current[yu * w + xr] as u128 + self.current[y * w + xl] as u128
                + self.current[y * w + x] as u128 + self.current[y * w + xr] as u128
                + self.current[yd * w + xl] as u128 + self.current[yd * w + x] as u128
                + self.current[yd * w + xr] as u128;
            assert(s == g.block_sum(x as int, y as int));
            proof {
                lemma_scaled_mean_bounds(s as int, u64::MAX as int, decay as int);
                assert(decay * s <= 1_000_000 * (9 * u64::MAX)) by (nonlinear_arith)
                    requires
                        0 <= s <= 9 * u64::MAX,
                        0 <= decay <= 1_000_000,
                ;
            }
            let scaled: u128 = (decay as u128) * s;
            let v: u64 = (scaled / (9 * (UNIT as u128))) as u64;
            self.next.set(c, v);
            c = c + 1;
        }
        self.swap();
        assert(self@.cells =~= g.diffused(decay as int).cells);
    }
}


/// How often `v` occurs among the first `k + 1` entries, against the first `k`.
proof fn lemma_take_count_step(s: Seq<usize>, k: int, v: usize)
    requires
        0 <= k < s.len(),
    ensures
        s.take(k + 1).to_multiset().count(v) == s.take(k).to_multiset().count(v) + (if s[k] == v {
            1int
        } else {
            0int
        }),
{
    assert(s.take(k + 1) =~= s.take(k).push(s[k]));
    to_multiset_build(s.take(k), s[k]);
}

/// A prefix holds no more occurrences of `v` than the whole sequence.
proof fn lemma_take_count_le(s: Seq<usize>, k: int, v: usize)
    requires
        0 <= k <= s.len(),
    ensures
        s.take(k).to_multiset().count(v) <= s.to_multiset().count(v),
    decreases s.len() - k,
{
    if k < s.len() {
        lemma_take_count_step(s, k, v);
        lemma_take_count_le(s, k + 1, v);
    } else {
        assert(s.take(k) =~= s);
    }
}

/// Replacing one entry changes the sum by the difference.
proof fn lemma_sum_update(s: Seq<int>, i: int, v: int)
    requires
        0 <= i < s.len(),
    ensures
        sum(s.update(i, v)) == sum(s) - s[i] + v,
    decreases s.len(),
{
    let t = s.update(i, v);
    if i == s.len() - 1 {
        assert(t.drop_last() =~= s.drop_last());
    } else {
        assert(t.drop_last() =~= s.drop_last().update(i, v));
        lemma_sum_update(s.drop_last(), i, v);
    }
}

/// One more deposit raises exactly the named cell.
proof fn lemma_deposited_push(g: Grid, targets: Seq<usize>, t: usize, amount: int)
    requires
        t < g.cells.len() <= usize::MAX,
    ensures
        g.deposited(targets.push(t), amount).cells =~= g.deposited(targets, amount).cells.update(
            t as int,
            g.deposited(targets, amount).cells[t as int] + amount,
        ),
{
    to_multiset_build(targets, t);
    let a = g.deposited(targets.push(t), amount).cells;
    let b = g.deposited(targets, amount).cells;
    assert forall|c: int| 0 <= c < a.len() implies a[c] == b.update(t as int, b[t as int] + amount)[c] by {
        let k = targets.to_multiset().count(c as usize);
        if c == t as int {
            assert(c as usize == t);
            assert(amount * (k + 1) == amount * k + amount) by (nonlinear_arith);
        } else {
            assert(c as usize != t);
        }
    }
}

/// Deposits are conserved: one pass in which every entry of `targets` adds
/// `amount` to a cell of the field raises the total by the number of
/// entries times `amount`.
pub proof fn lemma_deposit_conserved(g: Grid, targets: Seq<usize>, amount: int)
    requires
        g.cells.len() <= usize::MAX,
        forall|i: int| 0 <= i < targets.len() ==> targets[i] < g.cells.len(),
    ensures
        g.deposited(targets, amount).total() == g.total() + targets.len() * amount,
    decreases targets.len(),
{
    if targets.len() == 0 {
        assert(targets.to_multiset() =~= Multiset::<usize>::empty()) by {
            targets.to_multiset_ensures();
            assert(targets.to_multiset().len() == 0);
        }
        assert(g.deposited(targets, amount).cells =~= g.cells);
    } else {
        let front = targets.drop_last();
        let t = targets.last();
        lemma_deposit_conserved(g, front, amount);
        assert(front.push(t) =~= targets);
        lemma_deposited_push(g, front, t, amount);
        let b = g.deposited(front, amount).cells;
        lemma_sum_update(b, t as int, b[t as int] + amount);
        assert((front.len() + 1) * amount == front.len() * amount + amount) by (nonlinear_arith);
    }
}

/// Deposits do not depend on the order of the agents: two passes that name
/// the same cells equally often leave the same field.
pub proof fn lemma_deposit_order_free(g: Grid, first: Seq<usize>, second: Seq<usize>, amount: int)
    requires
        first.to_multiset() == second.to_multiset(),
    ensures
        g.deposited(first, amount) == g.deposited(second, amount),
{
    assert(g.deposited(first, amount).cells =~= g.deposited(second, amount).cells);
}

/// Intensities never become negative: neither depositing a non-negative
/// amount nor diffusing with a non-negative decay factor takes a cell
/// below zero.
pub proof fn lemma_nonnegative(g: Grid, targets: Seq<usize>, amount: int, decay: int)
    requires
        g.wf(),
        amount >= 0,
        decay >= 0,
        forall|c: int| 0 <= c < g.cells.len() ==> #[trigger] g.cells[c] >= 0,
    ensures
        forall|c: int|
            0 <= c < g.cells.len() ==> #[trigger] g.deposited(targets, amount).cells[c] >= 0,
        forall|c: int| 0 <= c < g.cells.len() ==> #[trigger] g.diffused(decay).cells[c] >= 0,
        forall|c: int|
            0 <= c < g.cells.len() ==> #[trigger] g.deposited(targets, amount).diffused(
                decay,
            ).cells[c] >= 0,
{
    let d = g.deposited(targets, amount);
    assert forall|c: int| 0 <= c < g.cells.len() implies #[trigger] d.cells[c] >= 0 by {
        let k = targets.to_multiset().count(c as usize);
        assert(amount * k >= 0) by (nonlinear_arith)
            requires
                amount >= 0,
                k >= 0,
        ;
    }
    lemma_diffused_nonnegative(g, decay);
    lemma_diffused_nonnegative(d, decay);
}

/// Diffusion with a non-negative decay factor keeps a non-negative field
/// non-negative.
pub proof fn lemma_diffused_nonnegative(g: Grid, decay: int)
    requires
        g.wf(),
        decay >= 0,
        forall|c: int| 0 <= c < g.cells.len() ==> #[trigger] g.cells[c] >= 0,
    ensures
        forall|c: int| 0 <= c < g.cells.len() ==> #[trigger] g.diffused(decay).cells[c] >= 0,
{
    assert forall|c: int| 0 <= c < g.cells.len() implies #[trigger] g.diffused(decay).cells[c]
        >= 0 by {
        let x = c % g.width;
        let y = c / g.width;
        lemma_at_in_range(g, x - 1, y - 1);
        lemma_at_in_range(g, x, y - 1);
        lemma_at_in_range(g, x + 1, y - 1);
        lemma_at_in_range(g, x - 1, y);
        lemma_at_in_range(g, x, y);
        lemma_at_in_range(g, x + 1, y);
        lemma_at_in_range(g, x - 1, y + 1);
        lemma_at_in_range(g, x, y + 1);
        lemma_at_in_range(g, x + 1, y + 1);
        let s = g.block_sum(x, y);
        assert(s >= 0);
        assert((decay * s) / (9 * UNIT) >= 0) by (nonlinear_arith)
            requires
                decay >= 0,
                s >= 0,
                UNIT == 1_000_000,
        ;
    }
}

impl Field {
    /// One deposition pass: every entry of `targets` adds `amount` to the
    /// cell it names. The sums are accumulated in the working buffer, which
    /// becomes current only when every cell can hold its sum; otherwise the
    /// settled grid is left as it was.
    pub fn deposit(&mut self, targets: &Vec<usize>, amount: u32) -> (r: Result<(), StepError>)
        requires
            old(self).wf(),
            forall|i: int| 0 <= i < targets@.len() ==> targets@[i] < old(self)@.cells.len(),
        ensures
            final(self).wf(),
            final(self).width == old(self).width,
            final(self).height == old(self).height,
            r is Ok <==> old(self)@.deposited(targets@, amount as int).fits(),
            r is Ok ==> final(self)@ == old(self)@.deposited(targets@, amount as int),
            r is Err ==> final(self)@ == old(self)@ && r->Err_0 == StepError::NumericDegeneracy,
    {
        let n: usize = self.current.len();
        let ghost g = self@;
        let mut c: usize = 0;
        while c < n
            invariant
                self.wf(),
                self.current@ == old(self).current@,
                self.width == old(self).width,
                self.height == old(self).height,
                n == self.current@.len(),
                c <= n,
                forall|k: int| 0 <= k < c ==> #[trigger] self.next@[k] == self.current@[k],
            decreases n - c,
        {
            let v: u64 = self.current[c];
            self.next.set(c, v);
            c = c + 1;
        }
        let mut i: usize = 0;
        proof {
            assert(targets@.take(0).to_multiset() =~= Multiset::<usize>::empty()) by {
                targets@.take(0).to_multiset_ensures();
                assert(targets@.take(0).to_multiset().len() == 0);
            }
        }
        while i < targets.len()
            invariant
                self.wf(),
                self@ == g,
                self.current@ == old(self).current@,
                self.width == old(self).width,
                self.height == old(self).height,
                n == self.current@.len(),
                i <= targets@.len(),
                forall|j: int| 0 <= j < targets@.len() ==> targets@[j] < n,
                forall|k: int|
                    0 <= k < n ==> #[trigger] self.next@[k] as int == g.cells[k] + amount
                        * targets@.take(i as int).to_multiset().count(k as usize),
            decreases targets@.len() - i,
        {
            let t: usize = targets[i];
            let before: u64 = self.next[t];
            let ghost seen = targets@.take(i as int).to_multiset().count(t);
            proof {
                lemma_take_count_step(targets@, i as int, t);
                lemma_take_count_le(targets@, i as int + 1, t);
            }
            if before > u64::MAX - amount as u64 {
                proof {
                    let all = targets@.to_multiset().count(t);
                    assert(amount * all >= amount * (seen + 1)) by (nonlinear_arith)
                        requires
                            all >= seen + 1,
                            amount >= 0,
                    ;
                    assert(amount * (seen + 1) == amount * seen + amount) by (nonlinear_arith);
                    assert(g.deposited(targets@, amount as int).cells[t as int] > u64::MAX);
                }
                return Err(StepError::NumericDegeneracy);
            }
            self.next.set(t, before + amount as u64);
            proof {
                assert forall|k: int| 0 <= k < n implies #[trigger] self.next@[k] as int
                    == g.cells[k] + amount * targets@.take(i as int + 1).to_multiset().count(
                    k as usize,
                ) by {
                    lemma_take_count_step(targets@, i as int, k as usize);
                    if k == t as int {
                        assert(amount * (seen + 1) == amount * seen + amount) by (nonlinear_arith);
                    }
                }
            }
            i = i + 1;
        }
        assert(targets@.take(i as int) =~= targets@);
        self.swap();
        proof {
            let d = g.deposited(targets@, amount as int);
            assert(self@.cells =~= d.cells);
            assert forall|k: int| 0 <= k < d.cells.len() implies 0 <= #[trigger] d.cells[k]
                <= u64::MAX by {
                assert(d.cells[k] == self.current@[k] as int);
            }
        }
        Ok(())
    }
}

} // verus!
