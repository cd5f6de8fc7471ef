//! The nutrient overlay: fixed attractor zones that are added to what the
//! agents sense. It is laid out once and never changes afterwards.
use vstd::prelude::*;
use vstd::arithmetic::div_mod::{lemma_fundamental_div_mod, lemma_fundamental_div_mod_converse};
use rand::rngs::ThreadRng;
use crate::units::UNIT;
use crate::params::{ParameterSet, MAX_SIDE};
use crate::field::lemma_index_in_range;
use crate::rng::draw;

verus! {

/// `s` is the integer square root of `n`.
pub open spec fn is_root(n: int, s: int) -> bool {
    0 <= s && s * s <= n < (s + 1) * (s + 1)
}

/// The integer square root of `n`: the largest `s` with `s * s <= n`.
pub open spec fn root(n: int) -> int {
    choose|s: int| is_root(n, s)
}

/// An integer has at most one integer square root.
pub proof fn lemma_root_unique(n: int, s: int)
    requires
        is_root(n, s),
    ensures
        root(n) == s,
{
    let t = root(n);
    assert(is_root(n, t));
    assert(t == s) by (nonlinear_arith)
        requires
            0 <= s,
            s * s <= n < (s + 1) * (s + 1),
            0 <= t,
            t * t <= n < (t + 1) * (t + 1),
    ;
}

/// The integer square root of `n`.
pub fn isqrt(n: u128) -> (s: u64)
    ensures
        s == root(n as int),
        is_root(n as int, s as int),
{
    let mut lo: u128 = 0;
    let mut hi: u128 = 0x1_0000_0000_0000_0000;
    assert(n < hi * hi) by (nonlinear_arith)
        requires
            n <= u128::MAX,
            hi == 0x1_0000_0000_0000_0000,
    ;
    while hi - lo > 1
        invariant
            lo < hi <= 0x1_0000_0000_0000_0000,
            lo * lo <= n < hi * hi,
        decreases hi - lo,
    {
        let mid: u128 = lo + (hi - lo) / 2;
        assert(mid * mid < 0x1_0000_0000_0000_0000 * 0x1_0000_0000_0000_0000) by (nonlinear_arith)
            requires
                0 <= mid < 0x1_0000_0000_0000_0000,
        ;
        if mid * mid <= n {
            lo = mid;
        } else {
            hi = mid;
        }
    }
    proof {
        lemma_root_unique(n as int, lo as int);
    }
    lo as u64
}

/// Strength of a zone of radius `r` at offset `(dx, dy)` from its centre,
/// in `1 / UNIT`: one at the centre, falling linearly with distance to
/// zero at the rim and beyond.
pub open spec fn zone_level(dx: int, dy: int, r: int) -> int {
    let distance = root(UNIT * UNIT * (dx * dx + dy * dy));
    let ratio = distance / r;
    if ratio >= UNIT {
        0
    } else {
        UNIT - ratio
    }
}

/// Whether cell `c` lies in the square of half-side `r` around `(cx, cy)`,
/// lower edges included, upper edges not.
pub open spec fn in_zone(c: int, width: int, cx: int, cy: int, r: int) -> bool {
    &&& cx - r <= c % width < cx + r
    &&& cy - r <= c / width < cy + r
}

/// The overlay after a zone has been written over it.
pub open spec fn stamped(cells: Seq<u32>, width: int, cx: int, cy: int, r: int) -> Seq<int> {
    Seq::new(
        cells.len(),
        |c: int|
            if in_zone(c, width, cx, cy, r) {
                zone_level(c % width - cx, c / width - cy, r)
            } else {
                cells[c] as int
            },
    )
}

/// The strengths of an overlay as integers.
pub open spec fn levels(cells: Seq<u32>) -> Seq<int> {
    Seq::new(cells.len(), |c: int| cells[c] as int)
}

/// Whether `cells` can come from stamping `k` zones, one after the other,
/// on a blank overlay of the configured shape, each with a radius in
/// `[r_fix_min, r_fix_max)` and a centre that keeps it inside the domain.
pub open spec fn scattered(cells: Seq<u32>, p: ParameterSet, k: nat) -> bool
    decreases k,
{
    if k == 0 {
        &&& cells.len() == p.width * p.height
        &&& forall|c: int| 0 <= c < cells.len() ==> #[trigger] cells[c] == 0
    } else {
        exists|before: Seq<u32>, r: int, cx: int, cy: int|
            scattered(before, p, (k - 1) as nat) && p.r_fix_min <= r < p.r_fix_max && r <= cx
                < p.width - r && r <= cy < p.height - r && levels(cells) == #[trigger] stamped(
                before,
                p.width as int,
                cx,
                cy,
                r,
            )
    }
}

/// Strength of a zone of radius `r` at offset `(dx, dy)` from its centre.
pub fn zone_strength(dx: i64, dy: i64, r: u32) -> (v: u32)
    requires
        r > 0,
        -(MAX_SIDE as int) <= dx <= MAX_SIDE,
        -(MAX_SIDE as int) <= dy <= MAX_SIDE,
    ensures
        v == zone_level(dx as int, dy as int, r as int),
        v <= UNIT,
{
    let ax: u128 = if dx < 0 { (-dx) as u128 } else { dx as u128 };
    let ay: u128 = if dy < 0 { (-dy) as u128 } else { dy as u128 };
    proof {
        assert(ax * ax == dx * dx && ax * ax <= 32_768 * 32_768) by (nonlinear_arith)
            requires
                (ax == dx || ax == -dx),
                0 <= ax <= 32_768,
        ;
        assert(ay * ay == dy * dy && ay * ay <= 32_768 * 32_768) by (nonlinear_arith)
            requires
                (ay == dy || ay == -dy),
                0 <= ay <= 32_768,
        ;
    }
    let square: u128 = ax * ax + ay * ay;
    let scale: u128 = (UNIT as u128) * (UNIT as u128);
    assert(scale * square <= 1_000_000_000_000 * 2_147_483_648) by (nonlinear_arith)
        requires
            scale == 1_000_000_000_000,
            0 <= square <= 2_147_483_648,
    ;
    let distance: u64 = isqrt(scale * square);
    assert(UNIT * UNIT * (dx * dx + dy * dy) == scale * square) by (nonlinear_arith)
        requires
            scale == UNIT * UNIT,
            square == dx * dx + dy * dy,
    ;
    let ratio: u64 = distance / (r as u64);
    if ratio >= UNIT {
        0
    } else {
        (UNIT - ratio) as u32
    }
}

/// The static attractor grid.
pub struct NutrientOverlay {
    pub width: u32,
    pub height: u32,
    pub cells: Vec<u32>,
}

impl NutrientOverlay {
    /// The overlay has the shape of the domain and no cell is stronger
    /// than one.
    pub open spec fn wf(&self) -> bool {
        &&& 0 < self.width <= MAX_SIDE
        &&& 0 < self.height <= MAX_SIDE
        &&& self.cells@.len() == self.width * self.height
        &&& forall|c: int| 0 <= c < self.cells@.len() ==> #[trigger] self.cells@[c] <= UNIT
    }

    /// An overlay without zones.
    pub fn blank(width: u32, height: u32) -> (r: NutrientOverlay)
        requires
            0 < width <= MAX_SIDE,
            0 < height <= MAX_SIDE,
        ensures
            r.wf(),
            r.width == width,
            r.height == height,
            forall|c: int| 0 <= c < r.cells@.len() ==> #[trigger] r.cells@[c] == 0,
    {
        assert(width * height <= 32_768 * 32_768) by (nonlinear_arith)
            requires
                0 < width <= 32_768,
                0 < height <= 32_768,
        ;
        let n: usize = (width as usize) * (height as usize);
        NutrientOverlay { width, height, cells: vec![0u32; n] }
    }

    /// Whether this is a well-formed overlay of the given shape.
    pub fn matches(&self, width: u32, height: u32) -> (ok: bool)
        ensures
            ok == (self.wf() && self.width == width && self.height == height),
    {
        if self.width != width || self.height != height {
            return false;
        }
        if width == 0 || width > MAX_SIDE || height == 0 || height > MAX_SIDE {
            return false;
        }
        assert(width * height <= 32_768 * 32_768) by (nonlinear_arith)
            requires
                0 < width <= 32_768,
                0 < height <= 32_768,
        ;
        let n: usize = (width as usize) * (height as usize);
        if self.cells.len() != n {
            return false;
        }
        let mut c: usize = 0;
        while c < n
            invariant
                n == self.cells@.len(),
                c <= n,
                forall|k: int| 0 <= k < c ==> #[trigger] self.cells@[k] <= UNIT,
            decreases n - c,
        {
            if self.cells[c] as u64 > UNIT {
                return false;
            }
            c = c + 1;
        }
        true
    }

    /// Strength at cell `c`.
    pub fn level(&self, c: usize) -> (v: u32)
        requires
            self.wf(),
            c < self.cells@.len(),
        ensures
            v == self.cells@[c as int],
            v <= UNIT,
    {
        self.cells[c]
    }

    /// Writes a zone of radius `r` centred on cell `(cx, cy)` over the
    /// square of half-side `r` around it. The square must lie inside the
    /// domain.
    pub fn stamp(&mut self, cx: u32, cy: u32, r: u32)
        requires
            old(self).wf(),
            r <= cx,
            cx + r <= old(self).width,
            r <= cy,
            cy + r <= old(self).height,
        ensures
            final(self).wf(),
            final(self).width == old(self).width,
            final(self).height == old(self).height,
            final(self).cells@.len() == old(self).cells@.len(),
            levels(final(self).cells@) == stamped(
                old(self).cells@,
                old(self).width as int,
                cx as int,
                cy as int,
                r as int,
            ),
    {
        let w: usize = self.width as usize;
        let ghost start = self.cells@;
        let ghost wi = self.width as int;
        let ghost target = stamped(start, wi, cx as int, cy as int, r as int);
        let y_end: u32 = cy + r;
        let x_end: u32 = cx + r;
        let mut y: u32 = cy - r;
        while y < y_end
            invariant
                self.wf(),
                self.width == old(self).width,
                self.height == old(self).height,
                w == self.width,
                wi == self.width,
                start.len() == self.cells@.len(),
                target == stamped(start, wi, cx as int, cy as int, r as int),
                r <= cx,
                r <= cy,
                x_end == cx + r,
                y_end == cy + r,
                x_end <= self.width,
                y_end <= self.height,
                cy - r <= y <= y_end,
                forall|c: int|
                    0 <= c < start.len() ==> #[trigger] self.cells@[c] as int == (if in_zone(
                        c,
                        wi,
                        cx as int,
                        cy as int,
                        r as int,
                    ) && c / wi < y {
                        target[c]
                    } else {
                        start[c] as int
                    }),
            decreases y_end - y,
        {
            let mut x: u32 = cx - r;
            while x < x_end
                invariant
                    self.wf(),
                    self.width == old(self).width,
                    self.height == old(self).height,
                    w == self.width,
                    wi == self.width,
                    start.len() == self.cells@.len(),
                    target == stamped(start, wi, cx as int, cy as int, r as int),
                    r <= cx,
                    r <= cy,
                    x_end == cx + r,
                    y_end == cy + r,
                    x_end <= self.width,
                    y_end <= self.height,
                    cy - r <= y < y_end,
                    cx - r <= x <= x_end,
                    forall|c: int|
                        0 <= c < start.len() ==> #[trigger] self.cells@[c] as int == (if in_zone(
                            c,
                            wi,
                            cx as int,
                            cy as int,
                            r as int,
                        ) && (c / wi < y || (c / wi == y && c % wi < x)) {
                            target[c]
                        } else {
                            start[c] as int
                        }),
                decreases x_end - x,
            {
                proof {
                    lemma_index_in_range(x as int, y as int, wi, self.height as int);
                    assert(0 <= y * w <= 32_768 * 32_768) by (nonlinear_arith)
                        requires
                            0 <= y < 32_768,
                            0 < w <= 32_768,
                    ;
                }
                let idx: usize = (y as usize) * w + (x as usize);
                let v: u32 = zone_strength(x as i64 - cx as i64, y as i64 - cy as i64, r);
                let ghost before = self.cells@;
                self.cells.set(idx, v);
                proof {
                    lemma_fundamental_div_mod_converse(idx as int, wi, y as int, x as int);
                    assert forall|c: int| 0 <= c < start.len() implies #[trigger] self.cells@[c] as int
                        == (if in_zone(c, wi, cx as int, cy as int, r as int) && (c / wi < y || (c
                        / wi == y && c % wi < x + 1)) {
                        target[c]
                    } else {
                        start[c] as int
                    }) by {
                        lemma_fundamental_div_mod(c, wi);
                        if c != idx as int {
                            assert(self.cells@[c] == before[c]);
                            assert(!(c / wi == y && c % wi == x)) by (nonlinear_arith)
                                requires
                                    c == wi * (c / wi) + c % wi,
                                    idx == y * wi + x,
                                    c != idx,
                            ;
                        }
                    }
                }
                x = x + 1;
            }
            y = y + 1;
        }
        assert(levels(self.cells@) =~= target);
    }

    /// Lays out the zones of a run: for each of `params.n_fix` zones a
    /// radius is drawn from `[r_fix_min, r_fix_max)` and a centre such that
    /// the zone lies inside the domain, and the zone is stamped. Whatever
    /// is drawn, the result is an overlay of the domain's shape.
    pub fn scatter(rng: &mut ThreadRng, params: &ParameterSet) -> (r: NutrientOverlay)
        requires
            params.valid(),
        ensures
            r.wf(),
            r.width == params.width,
            r.height == params.height,
            scattered(r.cells@, *params, params.n_fix as nat),
    {
        let mut overlay = NutrientOverlay::blank(params.width, params.height);
        let mut k: u32 = 0;
        while k < params.n_fix
            invariant
                params.valid(),
                overlay.wf(),
                overlay.width == params.width,
                overlay.height == params.height,
                k <= params.n_fix,
                scattered(overlay.cells@, *params, k as nat),
            decreases params.n_fix - k,
        {
            let radius: u32 = draw(rng, params.r_fix_min, params.r_fix_max);
            let cx: u32 = draw(rng, radius, params.width - radius);
            let cy: u32 = draw(rng, radius, params.height - radius);
            let ghost before = overlay.cells@;
            overlay.stamp(cx, cy, radius);
            assert(levels(overlay.cells@) == stamped(
                before,
                params.width as int,
                cx as int,
                cy as int,
                radius as int,
            ));
            k = k + 1;
        }
        overlay
    }
}

} // verus!
