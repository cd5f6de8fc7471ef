//! The trail budget of diffusion: the blur only moves trail between cells,
//! so a diffusion step keeps at most the decay factor's share of the total.
use vstd::prelude::*;
use vstd::arithmetic::div_mod::{lemma_add_mod_noop_right, lemma_fundamental_div_mod, lemma_fundamental_div_mod_converse, lemma_mod_bound, lemma_small_mod, lemma_mod_sub_multiples_vanish};
use crate::units::UNIT;
use crate::field::{Grid, sum, lemma_index_in_range};

verus! {

/// The sum of a concatenation is the sum of the sums.
pub proof fn lemma_sum_concat(a: Seq<int>, b: Seq<int>)
    ensures
        sum(a + b) == sum(a) + sum(b),
    decreases b.len(),
{
    if b.len() == 0 {
        assert(a + b =~= a);
    } else {
        assert((a + b).drop_last() =~= a + b.drop_last());
        lemma_sum_concat(a, b.drop_last());
    }
}

/// `s` read cyclically from position `k` on.
pub open spec fn rotated(s: Seq<int>, k: int) -> Seq<int> {
    Seq::new(s.len(), |i: int| s[(i + k) % (s.len() as int)])
}

/// Reading a sequence cyclically from another position keeps its sum.
pub proof fn lemma_sum_rotated(s: Seq<int>, k: int)
    ensures
        sum(rotated(s, k)) == sum(s),
{
    let n = s.len() as int;
    if n == 0 {
        assert(rotated(s, k) =~= s);
    } else {
        let j = k % n;
        lemma_mod_bound(k, n);
        let tail = s.subrange(j, n);
        let head = s.subrange(0, j);
        assert forall|i: int| 0 <= i < n implies rotated(s, k)[i] == (tail + head)[i] by {
            lemma_add_mod_noop_right(i, k, n);
            if i + j < n {
                lemma_small_mod((i + j) as nat, n as nat);
            } else {
                lemma_mod_sub_multiples_vanish(i + j, n);
                lemma_small_mod((i + j - n) as nat, n as nat);
            }
        }
        assert(rotated(s, k) =~= tail + head);
        assert(s =~= head + tail);
        lemma_sum_concat(tail, head);
        lemma_sum_concat(head, tail);
    }
}

/// Sums are monotone under a common scaling: where `p` times each entry of
/// `a` is at most `q` times the entry of `b` at the same place, `p` times
/// the sum of `a` is at most `q` times the sum of `b`.
pub proof fn lemma_sum_scaled_le(a: Seq<int>, b: Seq<int>, p: int, q: int)
    requires
        a.len() == b.len(),
        forall|i: int| 0 <= i < a.len() ==> p * #[trigger] a[i] <= q * b[i],
    ensures
        p * sum(a) <= q * sum(b),
    decreases a.len(),
{
    if a.len() == 0 {
        assert(p * 0 == 0 && q * 0 == 0);
    } else {
        lemma_sum_scaled_le(a.drop_last(), b.drop_last(), p, q);
        assert(p * a.last() <= q * b.last());
        assert(p * (sum(a.drop_last()) + a.last()) == p * sum(a.drop_last()) + p * a.last())
            by (nonlinear_arith);
        assert(q * (sum(b.drop_last()) + b.last()) == q * sum(b.drop_last()) + q * b.last())
            by (nonlinear_arith);
    }
}

/// The sum of an entry-wise sum is the sum of the sums.
pub proof fn lemma_sum_added(a: Seq<int>, b: Seq<int>, t: Seq<int>)
    requires
        a.len() == b.len(),
        t.len() == a.len(),
        forall|i: int| 0 <= i < t.len() ==> #[trigger] t[i] == a[i] + b[i],
    ensures
        sum(t) == sum(a) + sum(b),
    decreases t.len(),
{
    if t.len() > 0 {
        lemma_sum_added(a.drop_last(), b.drop_last(), t.drop_last());
    }
}

/// The sums of the rows of a grid of `height` rows of `width` cells.
pub open spec fn row_sums(cells: Seq<int>, width: int, height: int) -> Seq<int> {
    Seq::new(height as nat, |y: int| sum(cells.subrange(y * width, y * width + width)))
}

/// The sum of a grid is the sum of the sums of its rows.
pub proof fn lemma_sum_by_rows(cells: Seq<int>, width: int, height: int)
    requires
        width > 0,
        height >= 0,
        cells.len() == width * height,
    ensures
        sum(cells) == sum(row_sums(cells, width, height)),
    decreases height,
{
    if height == 0 {
        assert(cells.len() == 0) by (nonlinear_arith)
            requires
                cells.len() == width * height,
                height == 0,
        ;
        assert(row_sums(cells, width, height).len() == 0);
    } else {
        let cut = (height - 1) * width;
        assert(cut + width == width * height && cut >= 0) by (nonlinear_arith)
            requires
                cut == (height - 1) * width,
                height >= 1,
                width > 0,
        ;
        let upper = cells.subrange(0, cut);
        let last = cells.subrange(cut, cut + width);
        assert(cells =~= upper + last);
        lemma_sum_concat(upper, last);
        assert(upper.len() == width * (height - 1)) by (nonlinear_arith)
            requires
                upper.len() == cut,
                cut == (height - 1) * width,
        ;
        lemma_sum_by_rows(upper, width, height - 1);
        let rows = row_sums(cells, width, height);
        let upper_rows = row_sums(upper, width, height - 1);
        assert forall|y: int| 0 <= y < height - 1 implies rows.drop_last()[y] == upper_rows[y] by {
            assert(0 <= y * width && y * width + width <= cut) by (nonlinear_arith)
                requires
                    0 <= y < height - 1,
                    width > 0,
                    cut == (height - 1) * width,
            ;
            assert(cells.subrange(y * width, y * width + width) =~= upper.subrange(
                y * width,
                y * width + width,
            ));
        }
        assert(rows.drop_last() =~= upper_rows);
        assert(rows.last() == sum(last));
    }
}


/// The grid read with every cell replaced by the one `(dx, dy)` away on
/// the torus.
pub open spec fn shifted(g: Grid, dx: int, dy: int) -> Seq<int> {
    Seq::new(g.cells.len(), |c: int| g.at(c % g.width + dx, c / g.width + dy))
}

/// The block sums of all cells.
pub open spec fn block_sums(g: Grid) -> Seq<int> {
    Seq::new(g.cells.len(), |c: int| g.block_sum(c % g.width, c / g.width))
}

/// Shifting a grid on the torus keeps its total.
pub proof fn lemma_sum_shifted(g: Grid, dx: int, dy: int)
    requires
        g.wf(),
    ensures
        sum(shifted(g, dx, dy)) == sum(g.cells),
{
    let w = g.width;
    let h = g.height;
    let s = shifted(g, dx, dy);
    lemma_sum_by_rows(s, w, h);
    lemma_sum_by_rows(g.cells, w, h);
    let rs = row_sums(s, w, h);
    let rg = row_sums(g.cells, w, h);
    assert forall|y: int| 0 <= y < h implies rs[y] == rotated(rg, dy)[y] by {
        let y2 = (y + dy) % h;
        lemma_mod_bound(y + dy, h);
        lemma_index_in_range(0, y, w, h);
        lemma_index_in_range(w - 1, y, w, h);
        lemma_index_in_range(0, y2, w, h);
        lemma_index_in_range(w - 1, y2, w, h);
        let srow = s.subrange(y * w, y * w + w);
        let grow = g.cells.subrange(y2 * w, y2 * w + w);
        assert forall|x: int| 0 <= x < w implies srow[x] == rotated(grow, dx)[x] by {
            let c = y * w + x;
            lemma_fundamental_div_mod_converse(c, w, y, x);
            lemma_mod_bound(x + dx, w);
            assert(s[c] == g.at(x + dx, y + dy));
        }
        assert(srow =~= rotated(grow, dx));
        lemma_sum_rotated(grow, dx);
    }
    assert(rs =~= rotated(rg, dy));
    lemma_sum_rotated(rg, dy);
}

/// Every cell lies in nine blocks: the block sums add up to nine times the
/// total.
pub proof fn lemma_sum_blocks(g: Grid)
    requires
        g.wf(),
    ensures
        sum(block_sums(g)) == 9 * sum(g.cells),
{
    let n = g.cells.len();
    let s1 = shifted(g, -1, -1);
    let s2 = shifted(g, 0, -1);
    let s3 = shifted(g, 1, -1);
    let s4 = shifted(g, -1, 0);
    let s5 = shifted(g, 0, 0);
    let s6 = shifted(g, 1, 0);
    let s7 = shifted(g, -1, 1);
    let s8 = shifted(g, 0, 1);
    let s9 = shifted(g, 1, 1);
    lemma_sum_shifted(g, -1, -1);
    lemma_sum_shifted(g, 0, -1);
    lemma_sum_shifted(g, 1, -1);
    lemma_sum_shifted(g, -1, 0);
    lemma_sum_shifted(g, 0, 0);
    lemma_sum_shifted(g, 1, 0);
    lemma_sum_shifted(g, -1, 1);
    lemma_sum_shifted(g, 0, 1);
    lemma_sum_shifted(g, 1, 1);
    let t2 = Seq::new(n, |c: int| s1[c] + s2[c]);
    let t3 = Seq::new(n, |c: int| t2[c] + s3[c]);
    let t4 = Seq::new(n, |c: int| t3[c] + s4[c]);
    let t5 = Seq::new(n, |c: int| t4[c] + s5[c]);
    let t6 = Seq::new(n, |c: int| t5[c] + s6[c]);
    let t7 = Seq::new(n, |c: int| t6[c] + s7[c]);
    let t8 = Seq::new(n, |c: int| t7[c] + s8[c]);
    let t9 = Seq::new(n, |c: int| t8[c] + s9[c]);
    lemma_sum_added(s1, s2, t2);
    lemma_sum_added(t2, s3, t3);
    lemma_sum_added(t3, s4, t4);
    lemma_sum_added(t4, s5, t5);
    lemma_sum_added(t5, s6, t6);
    lemma_sum_added(t6, s7, t7);
    lemma_sum_added(t7, s8, t8);
    lemma_sum_added(t8, s9, t9);
    assert(t9 =~= block_sums(g));
}

/// A sequence without negative entries has no negative sum.
pub proof fn lemma_sum_nonnegative(s: Seq<int>)
    requires
        forall|i: int| 0 <= i < s.len() ==> #[trigger] s[i] >= 0,
    ensures
        sum(s) >= 0,
    decreases s.len(),
{
    if s.len() > 0 {
        lemma_sum_nonnegative(s.drop_last());
    }
}

/// Diffusion fades the field: the blur moves trail between cells without
/// adding any, so after one step the total is at most the decay factor's
/// share of the total before. With a decay factor below one a field that
/// holds any trail holds strictly less afterwards, and with a decay factor
/// of at most one the total never grows.
pub proof fn lemma_diffusion_fades(g: Grid, decay: int)
    requires
        g.wf(),
        decay >= 0,
        forall|c: int| 0 <= c < g.cells.len() ==> #[trigger] g.cells[c] >= 0,
    ensures
        UNIT * g.diffused(decay).total() <= decay * g.total(),
        decay <= UNIT ==> g.diffused(decay).total() <= g.total(),
        decay < UNIT && g.total() > 0 ==> g.diffused(decay).total() < g.total(),
{
    let d = g.diffused(decay).cells;
    let b = block_sums(g);
    let m = 9 * UNIT as int;
    assert forall|c: int| 0 <= c < d.len() implies m * #[trigger] d[c] <= decay * b[c] by {
        let a = decay * b[c];
        lemma_fundamental_div_mod(a, m);
        lemma_mod_bound(a, m);
        assert(d[c] == a / m);
    }
    lemma_sum_scaled_le(d, b, m, decay);
    lemma_sum_blocks(g);
    lemma_sum_nonnegative(g.cells);
    let before = sum(g.cells);
    let after = sum(d);
    let u = UNIT as int;
    assert(u * after <= decay * before) by (nonlinear_arith)
        requires
            m * after <= decay * sum(b),
            sum(b) == 9 * before,
            m == 9 * u,
    ;
    if decay <= u {
        assert(after <= before) by (nonlinear_arith)
            requires
                u * after <= decay * before,
                0 <= decay <= u,
                before >= 0,
                u > 0,
        ;
    }
    if decay < u && before > 0 {
        assert(after < before) by (nonlinear_arith)
            requires
                u * after <= decay * before,
                0 <= decay < u,
                before > 0,
        ;
    }
}

} // verus!
