//! Distances and rectangles on the canvas: what selection and erasing need
//! to find the stroke under the pointer.

use vstd::prelude::*;
use crate::models::{Line, LineView, Point};

verus! {

/// The largest `d` whose square does not exceed `n`.
pub open spec fn is_floor_sqrt(d: int, n: int) -> bool {
    0 <= d && d * d <= n < (d + 1) * (d + 1)
}

/// Integer square root, rounded down.
pub fn isqrt(n: u128) -> (d: u64)
    ensures
        is_floor_sqrt(d as int, n as int),
{
    let mut lo: u128 = 0;
    let mut hi: u128 = 0x1_0000_0000_0000_0000;
    assert(0x1_0000_0000_0000_0000int * 0x1_0000_0000_0000_0000int
        == 0x1_0000_0000_0000_0000_0000_0000_0000_0000int) by (nonlinear_arith);
    while hi - lo > 1
        invariant
            lo < hi <= 0x1_0000_0000_0000_0000,
            lo * lo <= n < hi * hi,
        decreases hi - lo,
    {
        let mid: u128 = lo + (hi - lo) / 2;
        assert(mid * mid < 0x1_0000_0000_0000_0000_0000_0000_0000_0000int) by (nonlinear_arith)
            requires
                0 <= mid < 0x1_0000_0000_0000_0000,
        ;
        if mid * mid <= n {
            lo = mid;
        } else {
            hi = mid;
        }
    }
    lo as u64
}

/// The squared distance between two points.
pub open spec fn dist_sq(a: Point, b: Point) -> int {
    (a.x - b.x) * (a.x - b.x) + (a.y - b.y) * (a.y - b.y)
}

/// How far `p` lies along the segment from `a` to `b`: the dot product of
/// `p - a` and `b - a`. It is zero or less where `a` is the nearest point of
/// the segment, and `dist_sq(a, b)` or more where `b` is.
pub open spec fn along(p: Point, a: Point, b: Point) -> int {
    (p.x - a.x) * (b.x - a.x) + (p.y - a.y) * (b.y - a.y)
}

/// How far `p` lies to the side of the line through `a` and `b`: the cross
/// product of `p - a` and `b - a`.
pub open spec fn across(p: Point, a: Point, b: Point) -> int {
    (p.x - a.x) * (b.y - a.y) - (p.y - a.y) * (b.x - a.x)
}

/// The squared distance from `p` to the nearest point of the segment from
/// `a` to `b`, as a fraction: numerator, then denominator. The denominator is
/// positive.
pub open spec fn segment_dist_sq(p: Point, a: Point, b: Point) -> (int, int) {
    if dist_sq(a, b) == 0 || along(p, a, b) <= 0 {
        (dist_sq(p, a), 1)
    } else if along(p, a, b) >= dist_sq(a, b) {
        (dist_sq(p, b), 1)
    } else {
        (across(p, a, b) * across(p, a, b), dist_sq(a, b))
    }
}

/// `d` is the square root of `num / den`, rounded down.
pub open spec fn is_floor_root(d: int, num: int, den: int) -> bool {
    0 <= d && d * d * den <= num < (d + 1) * (d + 1) * den
}

/// A product of two coordinate differences fits in 65 bits.
proof fn lemma_product_bound(x: int, y: int)
    requires
        -0x1_0000_0000 < x < 0x1_0000_0000,
        -0x1_0000_0000 < y < 0x1_0000_0000,
    ensures
        -0xFFFF_FFFF_0000_0000 <= x * y <= 0xFFFF_FFFF_0000_0000,
{
    assert(-0xFFFF_FFFF_0000_0000 <= x * y <= 0xFFFF_FFFF_0000_0000) by (nonlinear_arith)
        requires
            -0xFFFF_FFFF <= x <= 0xFFFF_FFFF,
            -0xFFFF_FFFF <= y <= 0xFFFF_FFFF,
    ;
}

/// The squares of the cross product and of the dot product of two vectors
/// add up to the product of their squared lengths.
proof fn lemma_lagrange(vx: int, vy: int, ux: int, uy: int)
    ensures
        (vx * uy - vy * ux) * (vx * uy - vy * ux) + (vx * ux + vy * uy) * (vx * ux + vy * uy) == (vx
            * vx + vy * vy) * (ux * ux + uy * uy),
{
    let a = vx * uy;
    let b = vy * ux;
    let c = vx * ux;
    let d = vy * uy;
    assert(a * b == c * d) by (nonlinear_arith)
        requires
            a == vx * uy,
            b == vy * ux,
            c == vx * ux,
            d == vy * uy,
    ;
    assert((a - b) * (a - b) + (c + d) * (c + d) == a * a + b * b + c * c + d * d)
        by (nonlinear_arith)
        requires
            a * b == c * d,
    ;
    assert(a * a == (vx * vx) * (uy * uy)) by (nonlinear_arith)
        requires
            a == vx * uy,
    ;
    assert(b * b == (vy * vy) * (ux * ux)) by (nonlinear_arith)
        requires
            b == vy * ux,
    ;
    assert(c * c == (vx * vx) * (ux * ux)) by (nonlinear_arith)
        requires
            c == vx * ux,
    ;
    assert(d * d == (vy * vy) * (uy * uy)) by (nonlinear_arith)
        requires
            d == vy * uy,
    ;
    assert((vx * vx + vy * vy) * (ux * ux + uy * uy) == (vx * vx) * (ux * ux) + (vx * vx) * (uy
        * uy) + (vy * vy) * (ux * ux) + (vy * vy) * (uy * uy)) by (nonlinear_arith);
}

/// The squared distance, times `n * n`, from `p` to the point that lies
/// `m / n` of the way from `a` to `b`.
pub open spec fn scaled_dist_sq(p: Point, a: Point, b: Point, m: int, n: int) -> int {
    (n * (p.x - a.x) - m * (b.x - a.x)) * (n * (p.x - a.x) - m * (b.x - a.x)) + (n * (p.y - a.y)
        - m * (b.y - a.y)) * (n * (p.y - a.y) - m * (b.y - a.y))
}

/// Products of products may be regrouped.
proof fn lemma_regroup(a: int, b: int, c: int, d: int)
    ensures
        (a * b) * (c * d) == (a * c) * (b * d),
{
    let ab = a * b;
    let ac = a * c;
    assert(ab * (c * d) == (ab * c) * d) by (nonlinear_arith);
    assert(ab * c == ac * b) by (nonlinear_arith)
        requires
            ab == a * b,
            ac == a * c,
    ;
    assert((ac * b) * d == ac * (b * d)) by (nonlinear_arith);
}

/// The square of a difference of two products, term by term.
proof fn lemma_square_of_difference(n: int, x: int, m: int, u: int)
    ensures
        (n * x - m * u) * (n * x - m * u) == (n * n) * (x * x) - 2 * ((n * m) * (x * u)) + (m * m)
            * (u * u),
{
    let p = n * x;
    let q = m * u;
    assert((p - q) * (p - q) == p * p - 2 * (p * q) + q * q) by (nonlinear_arith);
    lemma_regroup(n, x, n, x);
    lemma_regroup(n, x, m, u);
    lemma_regroup(m, u, m, u);
}

/// No point of the segment is nearer to `p` than `segment_dist_sq` says:
/// for the point `m / n` of the way from `a` to `b`, with `m / n` between 0
/// and 1, the squared distance is at least the fraction.
pub proof fn lemma_segment_dist_is_least(p: Point, a: Point, b: Point, m: int, n: int)
    requires
        0 <= m <= n,
        0 < n,
    ensures
        segment_dist_sq(p, a, b).0 * (n * n) <= segment_dist_sq(p, a, b).1 * scaled_dist_sq(
            p,
            a,
            b,
            m,
            n,
        ),
{
    let ux = b.x - a.x;
    let uy = b.y - a.y;
    let vx = p.x - a.x;
    let vy = p.y - a.y;
    let nn = n * n;
    let nm = n * m;
    let mm = m * m;
    let l = ux * ux + uy * uy;
    let t = vx * ux + vy * uy;
    let v = vx * vx + vy * vy;
    let d = scaled_dist_sq(p, a, b, m, n);
    assert(l == dist_sq(a, b)) by (nonlinear_arith)
        requires
            l == ux * ux + uy * uy,
            ux == b.x - a.x,
            uy == b.y - a.y,
            dist_sq(a, b) == (a.x - b.x) * (a.x - b.x) + (a.y - b.y) * (a.y - b.y),
    ;
    assert(t == along(p, a, b));
    assert(v == dist_sq(p, a));
    lemma_square_of_difference(n, vx, m, ux);
    lemma_square_of_difference(n, vy, m, uy);
    let xx = vx * vx;
    let yy = vy * vy;
    let xu = vx * ux;
    let yu = vy * uy;
    let uu = ux * ux;
    let ww = uy * uy;
    assert(d == nn * v - 2 * (nm * t) + mm * l) by (nonlinear_arith)
        requires
            d == nn * xx - 2 * (nm * xu) + mm * uu + (nn * yy - 2 * (nm * yu) + mm * ww),
            v == xx + yy,
            t == xu + yu,
            l == uu + ww,
    ;
    assert(uu >= 0 && ww >= 0 && xx >= 0 && yy >= 0 && nn > 0 && mm >= 0 && nm >= 0)
        by (nonlinear_arith)
        requires
            uu == ux * ux,
            ww == uy * uy,
            xx == vx * vx,
            yy == vy * vy,
            nn == n * n,
            mm == m * m,
            nm == n * m,
            0 <= m <= n,
            0 < n,
    ;
    if l == 0 || t <= 0 {
        if l == 0 {
            assert(ux == 0 && uy == 0) by (nonlinear_arith)
                requires
                    ux * ux + uy * uy == 0,
            ;
            assert(t == 0) by (nonlinear_arith)
                requires
                    t == vx * ux + vy * uy,
                    ux == 0,
                    uy == 0,
            ;
        }
        assert(nm * t <= 0 && mm * l >= 0) by (nonlinear_arith)
            requires
                nm >= 0,
                t <= 0,
                mm >= 0,
                l >= 0,
        ;
        assert(v * nn == nn * v) by (nonlinear_arith);
    } else if t >= l {
        let w = dist_sq(p, b);
        assert(w == v - 2 * t + l) by (nonlinear_arith)
            requires
                w == (p.x - b.x) * (p.x - b.x) + (p.y - b.y) * (p.y - b.y),
                ux == b.x - a.x,
                uy == b.y - a.y,
                vx == p.x - a.x,
                vy == p.y - a.y,
                l == ux * ux + uy * uy,
                t == vx * ux + vy * uy,
                v == vx * vx + vy * vy,
        ;
        let e = n - m;
        let q1 = n * e;
        let q2 = (n + m) * e;
        let r = e * e;
        assert(q1 == nn - nm && q2 == nn - mm && 2 * q1 - q2 == r && q1 >= 0 && r >= 0)
            by (nonlinear_arith)
            requires
                e == n - m,
                q1 == n * e,
                q2 == (n + m) * e,
                r == e * e,
                nn == n * n,
                nm == n * m,
                mm == m * m,
                0 <= m <= n,
        ;
        assert(d - w * nn == 2 * (t * q1) - l * q2) by (nonlinear_arith)
            requires
                d == nn * v - 2 * (nm * t) + mm * l,
                w == v - 2 * t + l,
                q1 == nn - nm,
                q2 == nn - mm,
        ;
        assert(t * q1 >= l * q1) by (nonlinear_arith)
            requires
                t >= l,
                q1 >= 0,
        ;
        assert(2 * (l * q1) - l * q2 == l * r) by (nonlinear_arith)
            requires
                2 * q1 - q2 == r,
        ;
        assert(l * r >= 0) by (nonlinear_arith)
            requires
                l >= 0,
                r >= 0,
        ;
        assert(w * nn <= 1 * d);
    } else {
        let c = across(p, a, b);
        let cc = c * c;
        let tt = t * t;
        lemma_lagrange(vx, vy, ux, uy);
        assert(cc == v * l - tt);
        let g1 = t * n;
        let g2 = m * l;
        let g = g1 - g2;
        assert(g * g == g1 * g1 - 2 * (g1 * g2) + g2 * g2) by (nonlinear_arith)
            requires
                g == g1 - g2,
        ;
        assert(g * g >= 0) by (nonlinear_arith);
        lemma_regroup(t, n, t, n);
        lemma_regroup(t, n, m, l);
        lemma_regroup(m, l, m, l);
        let tm = t * m;
        let nl = n * l;
        let ll = l * l;
        assert(g * g == tt * nn - 2 * (tm * nl) + mm * ll);
        assert(tm * nl == (nm * t) * l) by (nonlinear_arith)
            requires
                tm == t * m,
                nl == n * l,
                nm == n * m,
        ;
        let nv = nn * v;
        let nt = nm * t;
        let ml = mm * l;
        assert(l * d == (nv * l) - 2 * (nt * l) + ml * l) by (nonlinear_arith)
            requires
                d == nv - 2 * nt + ml,
        ;
        assert(ml * l == mm * ll) by (nonlinear_arith)
            requires
                ml == mm * l,
                ll == l * l,
        ;
        let vl = v * l;
        assert(nv * l == vl * nn) by (nonlinear_arith)
            requires
                nv == nn * v,
                vl == v * l,
        ;
        assert(cc * nn == vl * nn - tt * nn) by (nonlinear_arith)
            requires
                cc == vl - tt,
        ;
        assert(l * d - cc * nn == g * g);
    }
}

/// A point of the segment lies at exactly the distance that
/// `segment_dist_sq` says: an end of the segment, or the foot of the
/// perpendicular from `p`.
pub proof fn lemma_segment_dist_is_reached(p: Point, a: Point, b: Point) -> (at: (int, int))
    ensures
        0 <= at.0 <= at.1,
        0 < at.1,
        segment_dist_sq(p, a, b).0 * (at.1 * at.1) == segment_dist_sq(p, a, b).1 * scaled_dist_sq(
            p,
            a,
            b,
            at.0,
            at.1,
        ),
{
    let ux = b.x - a.x;
    let uy = b.y - a.y;
    let vx = p.x - a.x;
    let vy = p.y - a.y;
    let l = ux * ux + uy * uy;
    let t = vx * ux + vy * uy;
    let v = vx * vx + vy * vy;
    assert(l == dist_sq(a, b)) by (nonlinear_arith)
        requires
            l == ux * ux + uy * uy,
            ux == b.x - a.x,
            uy == b.y - a.y,
            dist_sq(a, b) == (a.x - b.x) * (a.x - b.x) + (a.y - b.y) * (a.y - b.y),
    ;
    if l == 0 || t <= 0 {
        assert(scaled_dist_sq(p, a, b, 0, 1) == v) by (nonlinear_arith)
            requires
                scaled_dist_sq(p, a, b, 0, 1) == (1 * vx - 0 * ux) * (1 * vx - 0 * ux) + (1 * vy - 0
                    * uy) * (1 * vy - 0 * uy),
                v == vx * vx + vy * vy,
        ;
        assert(segment_dist_sq(p, a, b) == (v, 1int));
        assert(v * (1 * 1) == 1 * v) by (nonlinear_arith);
        (0, 1)
    } else if t >= l {
        assert(scaled_dist_sq(p, a, b, 1, 1) == dist_sq(p, b)) by (nonlinear_arith)
            requires
                scaled_dist_sq(p, a, b, 1, 1) == (1 * vx - 1 * ux) * (1 * vx - 1 * ux) + (1 * vy - 1
                    * uy) * (1 * vy - 1 * uy),
                dist_sq(p, b) == (p.x - b.x) * (p.x - b.x) + (p.y - b.y) * (p.y - b.y),
                ux == b.x - a.x,
                uy == b.y - a.y,
                vx == p.x - a.x,
                vy == p.y - a.y,
        ;
        assert(segment_dist_sq(p, a, b) == (dist_sq(p, b), 1int));
        assert(dist_sq(p, b) * (1 * 1) == 1 * dist_sq(p, b)) by (nonlinear_arith);
        (1, 1)
    } else {
        let c = across(p, a, b);
        let cc = c * c;
        let d = scaled_dist_sq(p, a, b, t, l);
        lemma_lagrange(vx, vy, ux, uy);
        lemma_square_of_difference(l, vx, t, ux);
        lemma_square_of_difference(l, vy, t, uy);
        let ll = l * l;
        let lt = l * t;
        let tt = t * t;
        let xx = vx * vx;
        let yy = vy * vy;
        let xu = vx * ux;
        let yu = vy * uy;
        let uu = ux * ux;
        let ww = uy * uy;
        assert(d == ll * v - 2 * (lt * t) + tt * l) by (nonlinear_arith)
            requires
                d == ll * xx - 2 * (lt * xu) + tt * uu + (ll * yy - 2 * (lt * yu) + tt * ww),
                v == xx + yy,
                t == xu + yu,
                l == uu + ww,
        ;
        let vl = v * l;
        assert(ll * v == l * vl && lt * t == l * tt && tt * l == l * tt) by (nonlinear_arith)
            requires
                ll == l * l,
                lt == l * t,
                tt == t * t,
                vl == v * l,
        ;
        assert(d == l * cc) by (nonlinear_arith)
            requires
                d == l * vl - 2 * (l * tt) + l * tt,
                cc == vl - tt,
        ;
        assert(cc * (l * l) == l * (l * cc)) by (nonlinear_arith);
        assert(segment_dist_sq(p, a, b) == (cc, l));
        assert(cc * (l * l) == l * d);
        (t, l)
    }
}

/// `c * c / l`, rounded down, for numbers of up to 65 bits whose quotient
/// has up to 65 bits too.
fn square_over(c: u128, l: u128) -> (f: u128)
    requires
        c < 0x2_0000_0000_0000_0000,
        0 < l < 0x2_0000_0000_0000_0000,
        c * c < 0x2_0000_0000_0000_0000 * l,
    ensures
        f * l <= c * c < (f + 1) * l,
{
    let c_hi: u128 = c / 0x1_0000_0000;
    let c_lo: u128 = c % 0x1_0000_0000;
    assert(c == c_hi * 0x1_0000_0000 + c_lo);
    assert(c_hi < 0x2_0000_0000);
    assert(c * c_hi < 0x4_0000_0000_0000_0000_0000_0000_0000) by (nonlinear_arith)
        requires
            c < 0x2_0000_0000_0000_0000,
            c_hi < 0x2_0000_0000,
    ;
    let x: u128 = c * c_hi;
    let q1: u128 = x / l;
    let r1: u128 = x % l;
    assert(x == q1 * l + r1 && r1 < l) by {
        vstd::arithmetic::div_mod::lemma_fundamental_div_mod(x as int, l as int);
        vstd::arithmetic::div_mod::lemma_mod_bound(x as int, l as int);
        assert(l * q1 == q1 * l) by (nonlinear_arith);
    }
    assert(c * c_lo < 0x2_0000_0000_0000_0000_0000_0000_0000) by (nonlinear_arith)
        requires
            c < 0x2_0000_0000_0000_0000,
            c_lo < 0x1_0000_0000,
    ;
    let y: u128 = r1 * 0x1_0000_0000 + c * c_lo;
    let q2: u128 = y / l;
    let r2: u128 = y % l;
    assert(y == q2 * l + r2 && r2 < l) by {
        vstd::arithmetic::div_mod::lemma_fundamental_div_mod(y as int, l as int);
        vstd::arithmetic::div_mod::lemma_mod_bound(y as int, l as int);
        assert(l * q2 == q2 * l) by (nonlinear_arith);
    }
    assert(c * c == (q1 * 0x1_0000_0000 + q2) * l + r2) by (nonlinear_arith)
        requires
            c == c_hi * 0x1_0000_0000 + c_lo,
            x == c * c_hi,
            x == q1 * l + r1,
            y == r1 * 0x1_0000_0000 + c * c_lo,
            y == q2 * l + r2,
    ;
    assert(q1 * 0x1_0000_0000 + q2 < 0x2_0000_0000_0000_0000) by (nonlinear_arith)
        requires
            c * c == (q1 * 0x1_0000_0000 + q2) * l + r2,
            c * c < 0x2_0000_0000_0000_0000 * l,
            0 < l,
            0 <= r2,
            0 <= q1,
            0 <= q2,
    ;
    let f: u128 = q1 * 0x1_0000_0000 + q2;
    assert(f * l <= c * c < (f + 1) * l) by (nonlinear_arith)
        requires
            c * c == f * l + r2,
            0 <= r2 < l,
    ;
    f
}

/// The distance from `p` to the segment from `a` to `b`, rounded down to a
/// whole number of canvas units: the distance to the point of the segment
/// that lies nearest to `p`, which is an end of the segment where the foot
/// of the perpendicular from `p` falls outside it.
pub fn dist_to_segment(p: Point, a: Point, b: Point) -> (d: u64)
    ensures
        is_floor_root(d as int, segment_dist_sq(p, a, b).0, segment_dist_sq(p, a, b).1),
{
    let ux: i128 = b.x as i128 - a.x as i128;
    let uy: i128 = b.y as i128 - a.y as i128;
    let vx: i128 = p.x as i128 - a.x as i128;
    let vy: i128 = p.y as i128 - a.y as i128;
    let wx: i128 = p.x as i128 - b.x as i128;
    let wy: i128 = p.y as i128 - b.y as i128;
    proof {
        lemma_product_bound(ux as int, ux as int);
        lemma_product_bound(uy as int, uy as int);
        lemma_product_bound(vx as int, vx as int);
        lemma_product_bound(vy as int, vy as int);
        lemma_product_bound(wx as int, wx as int);
        lemma_product_bound(wy as int, wy as int);
        lemma_product_bound(vx as int, ux as int);
        lemma_product_bound(vy as int, uy as int);
        lemma_product_bound(vx as int, uy as int);
        lemma_product_bound(vy as int, ux as int);
        assert(ux * ux >= 0 && uy * uy >= 0 && vx * vx >= 0 && vy * vy >= 0 && wx * wx >= 0 && wy
            * wy >= 0) by (nonlinear_arith);
    }
    let l2: i128 = ux * ux + uy * uy;
    let t: i128 = vx * ux + vy * uy;
    assert(l2 == dist_sq(a, b)) by (nonlinear_arith)
        requires
            l2 == ux * ux + uy * uy,
            ux == b.x - a.x,
            uy == b.y - a.y,
            dist_sq(a, b) == (a.x - b.x) * (a.x - b.x) + (a.y - b.y) * (a.y - b.y),
    ;
    assert(t == along(p, a, b));
    if l2 == 0 || t <= 0 {
        let n: i128 = vx * vx + vy * vy;
        let d = isqrt(n as u128);
        assert(d * d * 1 == d * d && (d + 1) * (d + 1) * 1 == (d + 1) * (d + 1))
            by (nonlinear_arith);
        return d;
    }
    if t >= l2 {
        let n: i128 = wx * wx + wy * wy;
        let d = isqrt(n as u128);
        assert(d * d * 1 == d * d && (d + 1) * (d + 1) * 1 == (d + 1) * (d + 1))
            by (nonlinear_arith);
        return d;
    }
    let c: i128 = vx * uy - vy * ux;
    assert(c == across(p, a, b));
    let c_abs: u128 = if c < 0 {
        (-c) as u128
    } else {
        c as u128
    };
    proof {
        lemma_lagrange(vx as int, vy as int, ux as int, uy as int);
        assert(c_abs * c_abs == c * c) by (nonlinear_arith)
            requires
                c_abs == c || c_abs == -c,
        ;
        assert(c * c <= (vx * vx + vy * vy) * l2) by (nonlinear_arith)
            requires
                c * c + t * t == (vx * vx + vy * vy) * l2,
        ;
        assert((vx * vx + vy * vy) * l2 < 0x2_0000_0000_0000_0000 * l2) by (nonlinear_arith)
            requires
                0 <= vx * vx + vy * vy < 0x2_0000_0000_0000_0000,
                0 < l2,
        ;
    }
    let f = square_over(c_abs, l2 as u128);
    let d = isqrt(f);
    assert(is_floor_root(d as int, c * c, l2 as int)) by (nonlinear_arith)
        requires
            0 <= d,
            d * d <= f < (d + 1) * (d + 1),
            f * l2 <= c * c < (f + 1) * l2,
            0 < l2,
    ;
    d
}

/// Pointer distance, in canvas units, below which a stroke counts as hit
/// when selecting.
pub const SELECT_RADIUS: u32 = 10;

/// Free space, in canvas units, between a stroke's outline and the rectangle
/// drawn round it.
pub const HIGHLIGHT_MARGIN: u32 = 5;

/// `p` lies at a distance below `radius` from the segment from `a` to `b`.
pub open spec fn segment_within(p: Point, a: Point, b: Point, radius: int) -> bool {
    segment_dist_sq(p, a, b).0 < radius * radius * segment_dist_sq(p, a, b).1
}

/// `p` lies at a distance below `radius` from one of the segments between
/// consecutive points of the path.
pub open spec fn path_within(points: Seq<Point>, p: Point, radius: int) -> bool {
    exists|k: int|
        #![trigger points[k]]
        0 <= k && k + 1 < points.len() && segment_within(p, points[k], points[k + 1], radius)
}

/// An exact rounded-down root is below a whole radius just when the
/// distance itself is.
proof fn lemma_floor_root_below(d: int, num: int, den: int, radius: int)
    requires
        is_floor_root(d, num, den),
        den > 0,
        radius >= 0,
    ensures
        d < radius <==> num < radius * radius * den,
{
    if d < radius {
        assert((d + 1) * (d + 1) * den <= radius * radius * den) by (nonlinear_arith)
            requires
                0 <= d + 1 <= radius,
                den > 0,
        ;
    } else {
        assert(radius * radius * den <= d * d * den) by (nonlinear_arith)
            requires
                0 <= radius <= d,
                den > 0,
        ;
    }
}

/// Whether `p` is nearer than `radius` to the segment from `a` to `b`.
pub fn near_segment(p: Point, a: Point, b: Point, radius: u32) -> (near: bool)
    ensures
        near == segment_within(p, a, b, radius as int),
{
    let d = dist_to_segment(p, a, b);
    proof {
        assert(dist_sq(a, b) >= 0) by (nonlinear_arith)
            requires
                dist_sq(a, b) == (a.x - b.x) * (a.x - b.x) + (a.y - b.y) * (a.y - b.y),
        ;
        lemma_floor_root_below(
            d as int,
            segment_dist_sq(p, a, b).0,
            segment_dist_sq(p, a, b).1,
            radius as int,
        );
    }
    d < radius as u64
}

/// Whether `p` is nearer than `radius` to the path of the stroke. A stroke
/// of fewer than two points has no segment and is never hit.
pub fn hits_line(line: &Line, p: Point, radius: u32) -> (hit: bool)
    ensures
        hit == path_within(line@.points, p, radius as int),
{
    if line.points.len() < 2 {
        return false;
    }
    let mut k: usize = 0;
    while k < line.points.len() - 1
        invariant
            line.points.len() >= 2,
            forall|j: int|
                #![trigger line.points@[j]]
                0 <= j < k ==> !segment_within(
                    p,
                    line.points@[j],
                    line.points@[j + 1],
                    radius as int,
                ),
        decreases line.points.len() - k,
    {
        if near_segment(p, line.points[k], line.points[k + 1], radius) {
            return true;
        }
        k += 1;
    }
    false
}

/// `found` names the first stroke of the drawing that `p` hits, or nothing
/// if `p` hits none.
pub open spec fn is_first_hit(
    lines: Seq<LineView>,
    p: Point,
    radius: int,
    found: Option<usize>,
) -> bool {
    match found {
        Some(index) => index < lines.len() && path_within(lines[index as int].points, p, radius)
            && forall|j: int| 0 <= j < index ==> !path_within(#[trigger] lines[j].points, p, radius),
        None => forall|j: int|
            0 <= j < lines.len() ==> !path_within(#[trigger] lines[j].points, p, radius),
    }
}

/// The first stroke of the drawing that `p` hits, if it hits any.
pub open spec fn first_within(lines: Seq<LineView>, p: Point, radius: int) -> Option<usize>
    decreases lines.len(),
{
    if lines.len() == 0 {
        None
    } else {
        match first_within(lines.drop_last(), p, radius) {
            Some(index) => Some(index),
            None => if path_within(lines.last().points, p, radius) {
                Some((lines.len() - 1) as usize)
            } else {
                None
            },
        }
    }
}

/// `first_within` names a stroke that `p` hits and that has no hit stroke
/// before it, or nothing where `p` hits no stroke.
pub proof fn lemma_first_within(lines: Seq<LineView>, p: Point, radius: int)
    requires
        lines.len() <= usize::MAX,
    ensures
        is_first_hit(lines, p, radius, first_within(lines, p, radius)),
    decreases lines.len(),
{
    if lines.len() > 0 {
        let earlier = lines.drop_last();
        lemma_first_within(earlier, p, radius);
        match first_within(earlier, p, radius) {
            Some(index) => {
                assert(earlier[index as int] == lines[index as int]);
                assert forall|j: int| 0 <= j < index implies !path_within(
                    #[trigger] lines[j].points,
                    p,
                    radius,
                ) by {
                    assert(earlier[j] == lines[j]);
                }
            },
            None => {
                assert forall|j: int| 0 <= j < lines.len() - 1 implies !path_within(
                    #[trigger] lines[j].points,
                    p,
                    radius,
                ) by {
                    assert(earlier[j] == lines[j]);
                }
            },
        }
    }
}

/// There is one answer to the question which stroke `p` hits first.
pub proof fn lemma_first_hit_unique(
    lines: Seq<LineView>,
    p: Point,
    radius: int,
    a: Option<usize>,
    b: Option<usize>,
)
    requires
        is_first_hit(lines, p, radius, a),
        is_first_hit(lines, p, radius, b),
    ensures
        a == b,
{
    match (a, b) {
        (Some(i), Some(j)) => {
            if i < j {
                assert(!path_within(lines[i as int].points, p, radius));
            } else if j < i {
                assert(!path_within(lines[j as int].points, p, radius));
            }
        },
        (Some(i), None) => {
            assert(!path_within(lines[i as int].points, p, radius));
        },
        (None, Some(j)) => {
            assert(!path_within(lines[j as int].points, p, radius));
        },
        (None, None) => {},
    }
}

/// Finds the first stroke that `p` hits.
pub fn first_hit(lines: &Vec<Line>, p: Point, radius: u32) -> (found: Option<usize>)
    ensures
        found == first_within(crate::models::lines_view(lines@), p, radius as int),
        is_first_hit(crate::models::lines_view(lines@), p, radius as int, found),
{
    let ghost views = crate::models::lines_view(lines@);
    proof {
        assert(views.len() == lines.len());
        lemma_first_within(views, p, radius as int);
    }
    let mut i: usize = 0;
    while i < lines.len()
        invariant
            i <= lines.len(),
            views == crate::models::lines_view(lines@),
            is_first_hit(views, p, radius as int, first_within(views, p, radius as int)),
            forall|j: int| 0 <= j < i ==> !path_within(#[trigger] views[j].points, p, radius as int),
        decreases lines.len() - i,
    {
        if hits_line(&lines[i], p, radius) {
            assert(path_within(views[i as int].points, p, radius as int));
            proof {
                lemma_first_hit_unique(
                    views,
                    p,
                    radius as int,
                    Some(i),
                    first_within(views, p, radius as int),
                );
            }
            return Some(i);
        }
        i += 1;
    }
    proof {
        lemma_first_hit_unique(views, p, radius as int, None, first_within(views, p, radius as int));
    }
    None
}

/// An axis-parallel rectangle, sides included. A rectangle whose least
/// coordinate on an axis exceeds its greatest holds no point.
#[derive(Clone, Copy, Debug, PartialEq, Eq, Structural)]
pub struct Rect {
    pub min_x: i64,
    pub min_y: i64,
    pub max_x: i64,
    pub max_y: i64,
}

impl Rect {
    /// The rectangle that holds no point: extending it by a point gives the
    /// rectangle of that point alone.
    pub open spec fn empty() -> Rect {
        Rect { min_x: i64::MAX, min_y: i64::MAX, max_x: i64::MIN, max_y: i64::MIN }
    }

    /// `p` lies in the rectangle.
    pub open spec fn holds(self, p: Point) -> bool {
        self.min_x <= p.x <= self.max_x && self.min_y <= p.y <= self.max_y
    }

    /// The smallest rectangle that holds `self` and `p`.
    pub open spec fn extended(self, p: Point) -> Rect {
        Rect {
            min_x: if p.x < self.min_x { p.x as i64 } else { self.min_x },
            min_y: if p.y < self.min_y { p.y as i64 } else { self.min_y },
            max_x: if p.x > self.max_x { p.x as i64 } else { self.max_x },
            max_y: if p.y > self.max_y { p.y as i64 } else { self.max_y },
        }
    }

    /// The rectangle with every side moved outwards by `amount`.
    pub open spec fn expanded(self, amount: int) -> Rect {
        Rect {
            min_x: (self.min_x - amount) as i64,
            min_y: (self.min_y - amount) as i64,
            max_x: (self.max_x + amount) as i64,
            max_y: (self.max_y + amount) as i64,
        }
    }

    /// The rectangle that holds no point.
    pub fn nothing() -> (r: Rect)
        ensures
            r == Rect::empty(),
    {
        Rect { min_x: i64::MAX, min_y: i64::MAX, max_x: i64::MIN, max_y: i64::MIN }
    }

    /// The rectangle with `a` and `b` as opposite corners.
    pub fn from_two_pos(a: Point, b: Point) -> (r: Rect)
        ensures
            r == Rect::empty().extended(a).extended(b),
    {
        Rect {
            min_x: if a.x < b.x { a.x as i64 } else { b.x as i64 },
            min_y: if a.y < b.y { a.y as i64 } else { b.y as i64 },
            max_x: if a.x > b.x { a.x as i64 } else { b.x as i64 },
            max_y: if a.y > b.y { a.y as i64 } else { b.y as i64 },
        }
    }

    /// Whether `p` lies in the rectangle.
    pub fn contains(&self, p: Point) -> (inside: bool)
        ensures
            inside == self.holds(p),
    {
        self.min_x <= p.x as i64 && p.x as i64 <= self.max_x && self.min_y <= p.y as i64 && p.y as i64
            <= self.max_y
    }
}

/// The smallest rectangle that holds all the points; the empty rectangle
/// for no points.
pub open spec fn extent(points: Seq<Point>) -> Rect
    decreases points.len(),
{
    if points.len() == 0 {
        Rect::empty()
    } else {
        extent(points.drop_last()).extended(points.last())
    }
}

/// The extent of a path holds each of its points, and on each of its four
/// sides lies a point of the path.
pub proof fn lemma_extent_tight(points: Seq<Point>)
    requires
        points.len() > 0,
    ensures
        forall|i: int| 0 <= i < points.len() ==> extent(points).holds(#[trigger] points[i]),
        exists|i: int| 0 <= i < points.len() && (#[trigger] points[i]).x == extent(points).min_x,
        exists|i: int| 0 <= i < points.len() && (#[trigger] points[i]).x == extent(points).max_x,
        exists|i: int| 0 <= i < points.len() && (#[trigger] points[i]).y == extent(points).min_y,
        exists|i: int| 0 <= i < points.len() && (#[trigger] points[i]).y == extent(points).max_y,
    decreases points.len(),
{
    let init = points.drop_last();
    let last = points.len() - 1;
    if init.len() == 0 {
        assert(extent(init) == Rect::empty());
        assert(points[last].x == extent(points).min_x);
        assert(points[last].x == extent(points).max_x);
        assert(points[last].y == extent(points).min_y);
        assert(points[last].y == extent(points).max_y);
    } else {
        lemma_extent_tight(init);
        assert forall|i: int| 0 <= i < points.len() implies extent(points).holds(
            #[trigger] points[i],
        ) by {
            if i < last {
                assert(init[i] == points[i]);
            }
        }
        let a = choose|i: int| 0 <= i < init.len() && (#[trigger] init[i]).x == extent(init).min_x;
        let b = choose|i: int| 0 <= i < init.len() && (#[trigger] init[i]).x == extent(init).max_x;
        let c = choose|i: int| 0 <= i < init.len() && (#[trigger] init[i]).y == extent(init).min_y;
        let d = choose|i: int| 0 <= i < init.len() && (#[trigger] init[i]).y == extent(init).max_y;
        assert(init[a] == points[a] && init[b] == points[b] && init[c] == points[c] && init[d]
            == points[d]);
        let e = extent(points);
        assert(points[a].x == e.min_x || points[last].x == e.min_x);
        assert(points[b].x == e.max_x || points[last].x == e.max_x);
        assert(points[c].y == e.min_y || points[last].y == e.min_y);
        assert(points[d].y == e.max_y || points[last].y == e.max_y);
    }
}

/// The rectangle drawn round a stroke: the extent of its path, widened by
/// half the stroke's width and the highlight margin. A stroke without
/// points has the empty rectangle.
pub open spec fn stroke_rect(line: LineView) -> Rect {
    if line.points.len() == 0 {
        Rect::empty()
    } else {
        extent(line.points).expanded(line.width / 2 + HIGHLIGHT_MARGIN)
    }
}

/// Computes the rectangle drawn round a stroke.
pub fn bounding_rect(line: &Line) -> (r: Rect)
    ensures
        r == stroke_rect(line@),
{
    if line.points.len() == 0 {
        return Rect::nothing();
    }
    let first = line.points[0];
    let mut r = Rect {
        min_x: first.x as i64,
        min_y: first.y as i64,
        max_x: first.x as i64,
        max_y: first.y as i64,
    };
    assert(line.points@.take(1).drop_last() == line.points@.take(0));
    assert(extent(line.points@.take(0)) == Rect::empty());
    let mut k: usize = 1;
    while k < line.points.len()
        invariant
            1 <= k <= line.points.len(),
            r == extent(line.points@.take(k as int)),
            i32::MIN <= r.min_x <= i32::MAX,
            i32::MIN <= r.min_y <= i32::MAX,
            i32::MIN <= r.max_x <= i32::MAX,
            i32::MIN <= r.max_y <= i32::MAX,
        decreases line.points.len() - k,
    {
        let p = line.points[k];
        assert(line.points@.take(k + 1).drop_last() == line.points@.take(k as int));
        if (p.x as i64) < r.min_x {
            r.min_x = p.x as i64;
        }
        if (p.y as i64) < r.min_y {
            r.min_y = p.y as i64;
        }
        if (p.x as i64) > r.max_x {
            r.max_x = p.x as i64;
        }
        if (p.y as i64) > r.max_y {
            r.max_y = p.y as i64;
        }
        k += 1;
    }
    assert(line.points@.take(k as int) == line.points@);
    let pad: i64 = (line.width / 2) as i64 + HIGHLIGHT_MARGIN as i64;
    Rect {
        min_x: r.min_x - pad,
        min_y: r.min_y - pad,
        max_x: r.max_x + pad,
        max_y: r.max_y + pad,
    }
}

/// At least one point of the path lies in the rectangle.
pub open spec fn touches(points: Seq<Point>, rect: Rect) -> bool {
    exists|k: int| 0 <= k < points.len() && rect.holds(#[trigger] points[k])
}

/// Whether at least one point of the stroke lies in the rectangle.
pub fn line_in_rect(line: &Line, rect: &Rect) -> (inside: bool)
    ensures
        inside == touches(line@.points, *rect),
{
    let mut k: usize = 0;
    while k < line.points.len()
        invariant
            k <= line.points.len(),
            forall|j: int| 0 <= j < k ==> !rect.holds(#[trigger] line.points@[j]),
        decreases line.points.len() - k,
    {
        if rect.contains(line.points[k]) {
            return true;
        }
        k += 1;
    }
    false
}

/// `picked` lists, in ascending order and each once, exactly the strokes
/// that have a point in the rectangle.
pub open spec fn is_rect_selection(picked: Seq<usize>, lines: Seq<LineView>, rect: Rect) -> bool {
    &&& forall|i: int|
        0 <= i < picked.len() ==> (#[trigger] picked[i]) < lines.len() && touches(
            lines[picked[i] as int].points,
            rect,
        )
    &&& forall|i: int, j: int|
        0 <= i < j < picked.len() ==> (#[trigger] picked[i]) < (#[trigger] picked[j])
    &&& forall|k: int|
        0 <= k < lines.len() && touches((#[trigger] lines[k]).points, rect) ==> picked.contains(
            k as usize,
        )
}

/// The strokes that have a point in the rectangle, in ascending order.
pub open spec fn rect_selection(lines: Seq<LineView>, rect: Rect) -> Seq<usize>
    decreases lines.len(),
{
    if lines.len() == 0 {
        Seq::empty()
    } else if touches(lines.last().points, rect) {
        rect_selection(lines.drop_last(), rect).push((lines.len() - 1) as usize)
    } else {
        rect_selection(lines.drop_last(), rect)
    }
}

/// `rect_selection` lists, in ascending order and each once, exactly the
/// strokes that have a point in the rectangle.
pub proof fn lemma_rect_selection(lines: Seq<LineView>, rect: Rect)
    requires
        lines.len() <= usize::MAX,
    ensures
        is_rect_selection(rect_selection(lines, rect), lines, rect),
    decreases lines.len(),
{
    if lines.len() > 0 {
        let earlier = lines.drop_last();
        let before = rect_selection(earlier, rect);
        let picked = rect_selection(lines, rect);
        let last = (lines.len() - 1) as usize;
        lemma_rect_selection(earlier, rect);
        assert forall|i: int| 0 <= i < picked.len() implies (#[trigger] picked[i]) < lines.len()
            && touches(lines[picked[i] as int].points, rect) by {
            if i < before.len() {
                assert(picked[i] == before[i]);
                assert(earlier[before[i] as int] == lines[before[i] as int]);
            }
        }
        assert forall|i: int, j: int| 0 <= i < j < picked.len() implies (#[trigger] picked[i]) < (
        #[trigger] picked[j]) by {
            assert(picked[i] == before[i]);
            if j < before.len() {
                assert(picked[j] == before[j]);
            }
        }
        assert forall|k: int|
            0 <= k < lines.len() && touches((#[trigger] lines[k]).points, rect) implies picked.contains(
            k as usize,
        ) by {
            if k < earlier.len() {
                assert(earlier[k] == lines[k]);
                assert(before.contains(k as usize));
                let w = choose|w: int| 0 <= w < before.len() && before[w] == k as usize;
                assert(picked[w] == k as usize);
            } else {
                assert(picked[picked.len() - 1] == last);
            }
        }
    }
}

/// Lists the strokes that have a point in the rectangle.
pub fn lines_in_rect(lines: &Vec<Line>, rect: &Rect) -> (picked: Vec<usize>)
    ensures
        picked@ == rect_selection(crate::models::lines_view(lines@), *rect),
        is_rect_selection(picked@, crate::models::lines_view(lines@), *rect),
{
    let ghost views = crate::models::lines_view(lines@);
    let mut picked: Vec<usize> = Vec::new();
    let mut i: usize = 0;
    while i < lines.len()
        invariant
            i <= lines.len(),
            views == crate::models::lines_view(lines@),
            picked@ == rect_selection(views.take(i as int), *rect),
        decreases lines.len() - i,
    {
        assert(views.take(i + 1).drop_last() == views.take(i as int));
        if line_in_rect(&lines[i], rect) {
            picked.push(i);
        }
        i += 1;
    }
    assert(views.take(i as int) == views);
    proof {
        assert(views.len() == lines.len());
        lemma_rect_selection(views, *rect);
    }
    picked
}

} // verus!
