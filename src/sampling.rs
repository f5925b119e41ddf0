//! Strided, row-major sampling of a pixel grid.
use vstd::prelude::*;

verus! {

/// A pixel position: row `v` (vertical) and column `u` (horizontal).
#[derive(Clone, Copy, Debug, PartialEq, Eq, Structural)]
pub struct Pixel {
    pub v: usize,
    pub u: usize,
}

/// The sampling step actually used: a step below one is taken as one.
pub open spec fn effective_stride(stride: nat) -> nat {
    if stride == 0 {
        1
    } else {
        stride
    }
}

/// `ceil(n / d)` for a positive `d`.
pub open spec fn ceil_div(n: nat, d: nat) -> nat
    recommends
        d > 0,
{
    ((n + d - 1) / d as int) as nat
}

/// The pixels of a `rows` x `cols` grid visited with step `stride` in both
/// axes, in row-major order: rows `0, s, 2s, ...` and, in each, columns
/// `0, s, 2s, ...`, where `s` is the effective stride.
pub open spec fn sampled(rows: nat, cols: nat, stride: nat) -> Seq<Pixel> {
    let s = effective_stride(stride);
    let nc = ceil_div(cols, s);
    Seq::new(
        ceil_div(rows, s) * nc,
        |i: int| Pixel { v: ((i / nc as int) * s) as usize, u: ((i % nc as int) * s) as usize },
    )
}

proof fn lemma_ceil_div_step(n: nat, d: nat)
    requires
        n > 0,
        d > 0,
    ensures
        ceil_div(n, d) == (n - 1) / (d as int) + 1,
{
    let q = (n - 1) / (d as int);
    let r = (n - 1) % (d as int);
    vstd::arithmetic::div_mod::lemma_fundamental_div_mod((n - 1) as int, d as int);
    assert((n + d - 1) as int == (q + 1) * d + r) by (nonlinear_arith)
        requires
            (n - 1) as int == d * q + r,
    ;
    vstd::arithmetic::div_mod::lemma_fundamental_div_mod_converse(
        (n + d - 1) as int,
        d as int,
        q + 1,
        r,
    );
}

/// Below `ceil(n / d)` steps of `d` stay inside `n`.
proof fn lemma_step_inside(n: nat, d: nat, k: nat)
    requires
        d > 0,
        k < ceil_div(n, d),
    ensures
        k * d < n,
{
    if n == 0 {
        assert(ceil_div(0, d) == 0) by {
            vstd::arithmetic::div_mod::lemma_div_of0(d as int);
            assert((d - 1) as int / d as int == 0) by {
                vstd::arithmetic::div_mod::lemma_basic_div((d - 1) as int, d as int);
            }
        }
    } else {
        lemma_ceil_div_step(n, d);
        let q = (n - 1) / (d as int);
        vstd::arithmetic::div_mod::lemma_fundamental_div_mod((n - 1) as int, d as int);
        assert(k * d <= q * d) by (nonlinear_arith)
            requires
                k <= q,
                d > 0,
        ;
        assert(q * d <= n - 1) by (nonlinear_arith)
            requires
                (n - 1) as int == d * q + (n - 1) % (d as int),
                (n - 1) % (d as int) >= 0,
        ;
    }
}

/// Every sampled pixel lies inside the grid.
pub(crate) proof fn lemma_sampled_inside(rows: nat, cols: nat, stride: nat, k: int)
    requires
        0 <= k < sampled(rows, cols, stride).len(),
        rows <= usize::MAX,
        cols <= usize::MAX,
    ensures
        ceil_div(cols, effective_stride(stride)) > 0,
        (sampled(rows, cols, stride)[k].v as nat) < rows,
        (sampled(rows, cols, stride)[k].u as nat) < cols,
        sampled(rows, cols, stride)[k].v as int == (k / ceil_div(cols, effective_stride(stride)) as int)
            * effective_stride(stride),
        sampled(rows, cols, stride)[k].u as int == (k % ceil_div(cols, effective_stride(stride)) as int)
            * effective_stride(stride),
{
    let s = effective_stride(stride);
    let nr = ceil_div(rows, s);
    let nc = ceil_div(cols, s);
    assert(nc > 0) by (nonlinear_arith)
        requires
            k < nr * nc,
            0 <= k,
            nr >= 0,
            nc >= 0,
    ;
    let q = k / nc as int;
    let r = k % nc as int;
    vstd::arithmetic::div_mod::lemma_fundamental_div_mod(k, nc as int);
    vstd::arithmetic::div_mod::lemma_mod_pos_bound(k, nc as int);
    assert(0 <= q < nr) by (nonlinear_arith)
        requires
            k == nc * q + r,
            0 <= r < nc,
            0 <= k < nr * nc,
    ;
    lemma_step_inside(rows, s, q as nat);
    lemma_step_inside(cols, s, r as nat);
}

/// Sampling with step `k` visits exactly `ceil(rows / k) * ceil(cols / k)`
/// pixels: each pixel of the grid whose row and column are multiples of `k`,
/// and each of them once.
pub proof fn lemma_stride_visits_grid_points(rows: usize, cols: usize, k: usize)
    requires
        k >= 1,
    ensures
        sampled(rows as nat, cols as nat, k as nat).len() == ceil_div(rows as nat, k as nat)
            * ceil_div(cols as nat, k as nat),
        forall|p: Pixel|
            #![trigger sampled(rows as nat, cols as nat, k as nat).contains(p)]
            sampled(rows as nat, cols as nat, k as nat).contains(p) <==> (p.v < rows && p.u < cols
                && p.v % k == 0 && p.u % k == 0),
        sampled(rows as nat, cols as nat, k as nat).no_duplicates(),
{
    let all = sampled(rows as nat, cols as nat, k as nat);
    let nr = ceil_div(rows as nat, k as nat);
    let nc = ceil_div(cols as nat, k as nat);
    assert(effective_stride(k as nat) == k);
    assert forall|p: Pixel| #[trigger] all.contains(p) implies (p.v < rows && p.u < cols && p.v % k
        == 0 && p.u % k == 0) by {
        let i = choose|i: int| 0 <= i < all.len() && all[i] == p;
        lemma_sampled_inside(rows as nat, cols as nat, k as nat, i);
        vstd::arithmetic::div_mod::lemma_mod_multiples_basic(i / nc as int, k as int);
        vstd::arithmetic::div_mod::lemma_mod_multiples_basic(i % nc as int, k as int);
    }
    assert forall|p: Pixel| (p.v < rows && p.u < cols && p.v % k == 0 && p.u % k == 0) implies #[trigger] all.contains(p) by {
        let a: int = p.v as int / k as int;
        let b: int = p.u as int / k as int;
        lemma_index_below_ceil(rows as nat, k as nat, p.v as nat);
        lemma_index_below_ceil(cols as nat, k as nat, p.u as nat);
        let idx: int = a * nc + b;
        assert(0 <= idx < nr * nc) by (nonlinear_arith)
            requires
                idx == a * nc + b,
                0 <= a < nr,
                0 <= b < nc,
        ;
        assert(all.len() == nr * nc);
        vstd::arithmetic::div_mod::lemma_fundamental_div_mod_converse(idx, nc as int, a, b);
        lemma_sampled_inside(rows as nat, cols as nat, k as nat, idx);
        vstd::arithmetic::div_mod::lemma_fundamental_div_mod(p.v as int, k as int);
        vstd::arithmetic::div_mod::lemma_fundamental_div_mod(p.u as int, k as int);
        assert(a * k == p.v) by (nonlinear_arith)
            requires
                p.v as int == k * a + (p.v as int) % (k as int),
                (p.v as int) % (k as int) == 0,
        ;
        assert(b * k == p.u) by (nonlinear_arith)
            requires
                p.u as int == k * b + (p.u as int) % (k as int),
                (p.u as int) % (k as int) == 0,
        ;
        assert(all[idx].v == p.v);
        assert(all[idx].u == p.u);
        assert(all[idx] == p);
    }
    assert forall|i: int, j: int|
        0 <= i < all.len() && 0 <= j < all.len() && i != j implies all[i] != all[j] by {
        lemma_sampled_inside(rows as nat, cols as nat, k as nat, i);
        lemma_sampled_inside(rows as nat, cols as nat, k as nat, j);
        vstd::arithmetic::div_mod::lemma_fundamental_div_mod(i, nc as int);
        vstd::arithmetic::div_mod::lemma_fundamental_div_mod(j, nc as int);
        let qi = i / nc as int;
        let qj = j / nc as int;
        let ri = i % nc as int;
        let rj = j % nc as int;
        if qi == qj && ri == rj {
            assert(i == j);
        } else if qi != qj {
            assert(qi * k != qj * k) by (nonlinear_arith)
                requires
                    qi != qj,
                    k >= 1,
            ;
        } else {
            assert(ri * k != rj * k) by (nonlinear_arith)
                requires
                    ri != rj,
                    k >= 1,
            ;
        }
    }
}

/// A multiple `x` of `d` below `n` is `d` times an index below `ceil(n / d)`.
proof fn lemma_index_below_ceil(n: nat, d: nat, x: nat)
    requires
        d > 0,
        x < n,
        (x as int) % (d as int) == 0,
    ensures
        (x as int) / (d as int) < ceil_div(n, d),
{
    lemma_ceil_div_step(n, d);
    vstd::arithmetic::div_mod::lemma_div_is_ordered(x as int, (n - 1) as int, d as int);
}

/// Computes `ceil(n / d)` without overflow.
fn ceil_div_exec(n: usize, d: usize) -> (r: usize)
    requires
        d > 0,
    ensures
        r == ceil_div(n as nat, d as nat),
        r <= n,
{
    if n == 0 {
        proof {
            vstd::arithmetic::div_mod::lemma_basic_div((d - 1) as int, d as int);
        }
        0
    } else {
        proof {
            lemma_ceil_div_step(n as nat, d as nat);
            vstd::arithmetic::div_mod::lemma_div_is_ordered_by_denominator((n - 1) as int, 1, d as int);
            vstd::arithmetic::div_mod::lemma_div_basics((n - 1) as int);
        }
        (n - 1) / d + 1
    }
}

/// Lists the pixels of a `rows` x `cols` grid visited with step `stride`
/// (a step below one is taken as one), in row-major order.
pub fn sample_pixels(rows: usize, cols: usize, stride: usize) -> (r: Vec<Pixel>)
    ensures
        r@ == sampled(rows as nat, cols as nat, stride as nat),
{
    let s: usize = if stride == 0 {
        1
    } else {
        stride
    };
    let nr = ceil_div_exec(rows, s);
    let nc = ceil_div_exec(cols, s);
    let ghost all = sampled(rows as nat, cols as nat, stride as nat);
    let mut out: Vec<Pixel> = Vec::new();
    let mut i: usize = 0;
    while i < nr
        invariant
            s == effective_stride(stride as nat),
            nr == ceil_div(rows as nat, s as nat),
            nc == ceil_div(cols as nat, s as nat),
            all == sampled(rows as nat, cols as nat, stride as nat),
            all.len() == nr * nc,
            i <= nr,
            out@ == all.take(i * nc),
        decreases nr - i,
    {
        proof {
            lemma_step_inside(rows as nat, s as nat, i as nat);
        }
        let v = i * s;
        let mut j: usize = 0;
        while j < nc
            invariant
                s == effective_stride(stride as nat),
                nr == ceil_div(rows as nat, s as nat),
                nc == ceil_div(cols as nat, s as nat),
                all == sampled(rows as nat, cols as nat, stride as nat),
                all.len() == nr * nc,
                i < nr,
                v == i * s,
                j <= nc,
                out@ == all.take(i * nc + j),
            decreases nc - j,
        {
            proof {
                lemma_step_inside(cols as nat, s as nat, j as nat);
            }
            let u = j * s;
            let ghost k = i * nc + j;
            proof {
                assert(k < nr * nc) by (nonlinear_arith)
                    requires
                        k == i * nc + j,
                        i < nr,
                        j < nc,
                ;
                vstd::arithmetic::div_mod::lemma_fundamental_div_mod_converse(
                    k as int,
                    nc as int,
                    i as int,
                    j as int,
                );
                assert(all[k as int] == Pixel { v, u });
                assert(all.take(k + 1) == all.take(k as int).push(Pixel { v, u }));
            }
            out.push(Pixel { v, u });
            j = j + 1;
        }
        proof {
            assert((i + 1) * nc == i * nc + nc) by (nonlinear_arith);
        }
        i = i + 1;
    }
    proof {
        assert(all.take(nr * nc) == all);
    }
    out
}

} // verus!
