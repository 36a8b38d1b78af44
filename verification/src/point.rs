//! Points of the grid, their arithmetic, and the integer square root.

use vstd::prelude::*;
use vstd::arithmetic::div_mod::{
    lemma_div_is_ordered, lemma_div_multiples_vanish, lemma_fundamental_div_mod, lemma_mod_bound,
};
use vstd::arithmetic::mul::lemma_mul_is_commutative;

verus! {

/// How many grid steps make one path unit. The fixed tolerances of this
/// crate are counted in grid steps and presume this grid.
pub const GRID_STEPS_PER_UNIT: u32 = 100;

/// The grid coordinate nearest to `v`.
pub open spec fn clamp_coord(v: int) -> i32 {
    if v < i32::MIN {
        i32::MIN
    } else if v > i32::MAX {
        i32::MAX
    } else {
        v as i32
    }
}

/// The grid coordinate nearest to `v`.
pub fn narrow_coord(v: i64) -> (r: i32)
    ensures
        r == clamp_coord(v as int),
{
    if v < i32::MIN as i64 {
        i32::MIN
    } else if v > i32::MAX as i64 {
        i32::MAX
    } else {
        v as i32
    }
}

/// A point, or a displacement, on the integer grid.
#[derive(Clone, Copy, Debug, PartialEq, Eq, Structural)]
pub struct ClipContourPoint {
    pub x: i32,
    pub y: i32,
}

impl ClipContourPoint {
    /// The point with the given coordinates.
    pub fn new(x: i32, y: i32) -> (p: Self)
        ensures
            p == (ClipContourPoint { x, y }),
    {
        ClipContourPoint { x, y }
    }

    /// The sum, coordinate by coordinate, kept on the grid.
    pub open spec fn spec_add(self, other: Self) -> Self {
        ClipContourPoint { x: clamp_coord(self.x + other.x), y: clamp_coord(self.y + other.y) }
    }

    /// Adds two displacements. A coordinate that would leave the grid stops
    /// at its edge.
    #[verifier::when_used_as_spec(spec_add)]
    pub fn add(self, other: Self) -> (r: Self)
        ensures
            r == self.spec_add(other),
    {
        ClipContourPoint {
            x: narrow_coord(self.x as i64 + other.x as i64),
            y: narrow_coord(self.y as i64 + other.y as i64),
        }
    }

    /// The difference, coordinate by coordinate, kept on the grid.
    pub open spec fn spec_sub(self, other: Self) -> Self {
        ClipContourPoint { x: clamp_coord(self.x - other.x), y: clamp_coord(self.y - other.y) }
    }

    /// Subtracts a displacement. A coordinate that would leave the grid stops
    /// at its edge.
    #[verifier::when_used_as_spec(spec_sub)]
    pub fn sub(self, other: Self) -> (r: Self)
        ensures
            r == self.spec_sub(other),
    {
        ClipContourPoint {
            x: narrow_coord(self.x as i64 - other.x as i64),
            y: narrow_coord(self.y as i64 - other.y as i64),
        }
    }

    /// The multiple, coordinate by coordinate, kept on the grid.
    pub open spec fn spec_mul(self, s: i32) -> Self {
        ClipContourPoint { x: clamp_coord(self.x * s), y: clamp_coord(self.y * s) }
    }

    /// Scales a displacement by a whole factor. A coordinate that would
    /// leave the grid stops at its edge.
    #[verifier::when_used_as_spec(spec_mul)]
    pub fn mul(self, s: i32) -> (r: Self)
        ensures
            r == self.spec_mul(s),
    {
        let k: i64 = s as i64;
        let x: i64 = self.x as i64;
        let y: i64 = self.y as i64;
        assert(-0x4000_0000_0000_0000 <= x * k <= 0x4000_0000_0000_0000) by (nonlinear_arith)
            requires
                -0x8000_0000 <= x <= 0x8000_0000,
                -0x8000_0000 <= k <= 0x8000_0000,
        ;
        assert(-0x4000_0000_0000_0000 <= y * k <= 0x4000_0000_0000_0000) by (nonlinear_arith)
            requires
                -0x8000_0000 <= y <= 0x8000_0000,
                -0x8000_0000 <= k <= 0x8000_0000,
        ;
        ClipContourPoint { x: narrow_coord(x * k), y: narrow_coord(y * k) }
    }

    /// The dot product of two displacements.
    pub open spec fn spec_dot(self, other: Self) -> int {
        self.x * other.x + self.y * other.y
    }

    /// The dot product of two displacements.
    pub fn dot(self, other: Self) -> (r: i128)
        ensures
            r == self.spec_dot(other),
    {
        let a: i128 = self.x as i128;
        let b: i128 = other.x as i128;
        let c: i128 = self.y as i128;
        let d: i128 = other.y as i128;
        assert(-0x4000_0000_0000_0000 <= a * b <= 0x4000_0000_0000_0000) by (nonlinear_arith)
            requires
                -0x8000_0000 <= a <= 0x8000_0000,
                -0x8000_0000 <= b <= 0x8000_0000,
        ;
        assert(-0x4000_0000_0000_0000 <= c * d <= 0x4000_0000_0000_0000) by (nonlinear_arith)
            requires
                -0x8000_0000 <= c <= 0x8000_0000,
                -0x8000_0000 <= d <= 0x8000_0000,
        ;
        a * b + c * d
    }

    /// The square of the length of a displacement.
    pub open spec fn spec_length_sq(self) -> int {
        self.x * self.x + self.y * self.y
    }

    /// The square of the length of a displacement.
    pub fn length_sq(self) -> (r: u64)
        ensures
            r == self.spec_length_sq(),
            r <= 0x8000_0000_0000_0000,
    {
        let a: i128 = self.x as i128;
        let c: i128 = self.y as i128;
        assert(0 <= a * a <= 0x4000_0000_0000_0000) by (nonlinear_arith)
            requires
                -0x8000_0000 <= a <= 0x8000_0000,
        ;
        assert(0 <= c * c <= 0x4000_0000_0000_0000) by (nonlinear_arith)
            requires
                -0x8000_0000 <= c <= 0x8000_0000,
        ;
        (a * a + c * c) as u64
    }

    /// The length of a displacement, rounded down to whole grid steps.
    pub fn length(self) -> (r: u32)
        ensures
            r == sqrt_floor(self.spec_length_sq()),
    {
        let n = self.length_sq();
        let root = isqrt(n as u128);
        assert(root < 0x1_0000_0000) by (nonlinear_arith)
            requires
                root * root <= n,
                n <= 0x8000_0000_0000_0000,
                0 <= root,
        ;
        root as u32
    }

    /// The displacement turned a quarter turn from the x axis toward the y
    /// axis.
    pub open spec fn spec_perp(self) -> Self {
        ClipContourPoint { x: clamp_coord(-self.y), y: self.x }
    }

    #[verifier::when_used_as_spec(spec_perp)]
    /// Turns a displacement a quarter turn from the x axis toward the y axis.
    /// A coordinate that would leave the grid stops at its edge.
    pub fn perp(self) -> (r: Self)
        ensures
            r == self.spec_perp(),
    {
        ClipContourPoint { x: narrow_coord(-(self.y as i64)), y: self.x }
    }

    /// The displacement turned a quarter turn from the y axis toward the x
    /// axis.
    pub open spec fn spec_rot90_cw(self) -> Self {
        ClipContourPoint { x: self.y, y: clamp_coord(-self.x) }
    }

    #[verifier::when_used_as_spec(spec_rot90_cw)]
    /// Turns a displacement a quarter turn from the y axis toward the x axis.
    /// A coordinate that would leave the grid stops at its edge.
    pub fn rot90_cw(self) -> (r: Self)
        ensures
            r == self.spec_rot90_cw(),
    {
        ClipContourPoint { x: self.y, y: narrow_coord(-(self.x as i64)) }
    }

    /// The same turn as `perp`.
    #[verifier::when_used_as_spec(spec_perp)]
    pub fn rot90_ccw(self) -> (r: Self)
        ensures
            r == self.spec_perp(),
    {
        self.perp()
    }

    /// The z component of the cross product of two displacements.
    pub open spec fn spec_cross(self, other: Self) -> int {
        self.x * other.y - self.y * other.x
    }

    /// The z component of the cross product of two displacements.
    pub fn cross(self, other: Self) -> (r: i128)
        ensures
            r == self.spec_cross(other),
            -0x8000_0000_0000_0000 <= r <= 0x8000_0000_0000_0000,
    {
        let a: i128 = self.x as i128;
        let b: i128 = other.y as i128;
        let c: i128 = self.y as i128;
        let d: i128 = other.x as i128;
        assert(-0x4000_0000_0000_0000 <= a * b <= 0x4000_0000_0000_0000) by (nonlinear_arith)
            requires
                -0x8000_0000 <= a <= 0x8000_0000,
                -0x8000_0000 <= b <= 0x8000_0000,
        ;
        assert(-0x4000_0000_0000_0000 <= c * d <= 0x4000_0000_0000_0000) by (nonlinear_arith)
            requires
                -0x8000_0000 <= c <= 0x8000_0000,
                -0x8000_0000 <= d <= 0x8000_0000,
        ;
        a * b - c * d
    }
}

/// Swapping the operands of a cross product negates it.
pub proof fn lemma_cross_antisymmetric(a: ClipContourPoint, b: ClipContourPoint)
    ensures
        a.spec_cross(b) == -b.spec_cross(a),
{
    let (ax, ay, bx, by) = (a.x as int, a.y as int, b.x as int, b.y as int);
    assert(ax * by - ay * bx == -(bx * ay - by * ax)) by (nonlinear_arith);
}

/// Whether `r` is the square root of `n`, rounded down.
pub open spec fn is_sqrt_floor(n: int, r: int) -> bool {
    0 <= r && r * r <= n < (r + 1) * (r + 1)
}

/// The square root of `n`, rounded down.
pub open spec fn sqrt_floor(n: int) -> int {
    choose|r: int| is_sqrt_floor(n, r)
}

/// At most one number is the rounded-down square root of `n`.
pub proof fn lemma_sqrt_floor_unique(n: int, r: int)
    requires
        is_sqrt_floor(n, r),
    ensures
        sqrt_floor(n) == r,
{
    let s = sqrt_floor(n);
    if s < r {
        assert((s + 1) * (s + 1) <= r * r) by (nonlinear_arith)
            requires
                0 <= s + 1 <= r,
        ;
    } else if r < s {
        assert((r + 1) * (r + 1) <= s * s) by (nonlinear_arith)
            requires
                0 <= r + 1 <= s,
        ;
    }
}

/// Every number that is not negative has a rounded-down square root.
pub proof fn lemma_sqrt_floor_exists(n: int)
    requires
        0 <= n,
    ensures
        is_sqrt_floor(n, sqrt_floor(n)),
    decreases n,
{
    if n == 0 {
        assert(is_sqrt_floor(0, 0));
    } else {
        lemma_sqrt_floor_exists(n - 1);
        let r = sqrt_floor(n - 1);
        if n < (r + 1) * (r + 1) {
            assert(is_sqrt_floor(n, r));
        } else {
            assert((r + 1) * (r + 1) <= n < (r + 2) * (r + 2)) by (nonlinear_arith)
                requires
                    0 <= r,
                    n - 1 < (r + 1) * (r + 1),
                    n >= (r + 1) * (r + 1),
            ;
            assert(is_sqrt_floor(n, r + 1));
        }
    }
}

/// The square root of `n`, rounded down.
pub fn isqrt(n: u128) -> (r: u64)
    ensures
        r == sqrt_floor(n as int),
        is_sqrt_floor(n as int, r as int),
{
    let mut lo: u128 = 0;
    let mut hi: u128 = 0x1_0000_0000_0000_0000;
    assert(n < hi * hi) by (nonlinear_arith)
        requires
            n <= u128::MAX,
            hi == 0x1_0000_0000_0000_0000,
    ;
    while hi - lo > 1
        invariant
            lo < hi <= 0x1_0000_0000_0000_0000,
            lo * lo <= n < hi * hi,
        decreases hi - lo,
    {
        let mid: u128 = lo + (hi - lo) / 2;
        assert(mid * mid <= 0xffff_ffff_ffff_ffff * 0xffff_ffff_ffff_ffff) by (nonlinear_arith)
            requires
                0 <= mid <= 0xffff_ffff_ffff_ffff,
        ;
        if mid * mid <= n {
            lo = mid;
        } else {
            hi = mid;
        }
    }
    proof {
        lemma_sqrt_floor_unique(n as int, lo as int);
    }
    lo as u64
}

/// The length of the segment between two points, rounded down to whole grid
/// steps.
pub open spec fn segment_length(from: ClipContourPoint, to: ClipContourPoint) -> int {
    sqrt_floor((to.x - from.x) * (to.x - from.x) + (to.y - from.y) * (to.y - from.y))
}

/// The length of the segment between two points, rounded down to whole grid
/// steps.
pub fn distance(from: ClipContourPoint, to: ClipContourPoint) -> (len: u64)
    ensures
        len == segment_length(from, to),
        len == 0 <==> from == to,
{
    let dx: i128 = to.x as i128 - from.x as i128;
    let dy: i128 = to.y as i128 - from.y as i128;
    assert(0 <= dx * dx <= 0x1_0000_0000_0000_0000) by (nonlinear_arith)
        requires
            -0x1_0000_0000 <= dx <= 0x1_0000_0000,
    ;
    assert(0 <= dy * dy <= 0x1_0000_0000_0000_0000) by (nonlinear_arith)
        requires
            -0x1_0000_0000 <= dy <= 0x1_0000_0000,
    ;
    let len = isqrt((dx * dx + dy * dy) as u128);
    proof {
        let r = len as int;
        if r == 0 {
            assert((r + 1) * (r + 1) == 1) by (nonlinear_arith)
                requires
                    r == 0,
            ;
            assert(dx == 0 && dy == 0) by (nonlinear_arith)
                requires
                    dx * dx + dy * dy < 1,
            ;
        } else {
            assert(r * r >= 1) by (nonlinear_arith)
                requires
                    r >= 1,
            ;
            assert(dx != 0 || dy != 0) by (nonlinear_arith)
                requires
                    dx * dx + dy * dy >= 1,
            ;
        }
    }
    len
}

/// How far along one axis a point lies that is `t` of `len` along a segment
/// spanning `d` on that axis; the fraction is rounded toward the start.
pub open spec fn along(d: int, t: int, len: int) -> int {
    if d >= 0 {
        (d * t) / len
    } else {
        -((-d * t) / len)
    }
}

/// The grid point `t` grid steps along the segment of length `len` from
/// `from` to `to`.
pub open spec fn point_along(from: ClipContourPoint, to: ClipContourPoint, t: int, len: int) -> ClipContourPoint {
    ClipContourPoint {
        x: (from.x + along(to.x - from.x, t, len)) as i32,
        y: (from.y + along(to.y - from.y, t, len)) as i32,
    }
}

/// A fraction of a span is no longer than the span.
proof fn lemma_fraction_bound(a: int, t: int, len: int)
    requires
        0 <= a,
        0 <= t <= len,
        0 < len,
    ensures
        0 <= (a * t) / len <= a,
        t == len ==> (a * t) / len == a,
        t == 0 ==> (a * t) / len == 0,
{
    assert(0 <= a * t <= a * len) by (nonlinear_arith)
        requires
            0 <= a,
            0 <= t <= len,
    ;
    lemma_div_is_ordered(0, a * t, len);
    lemma_div_is_ordered(a * t, a * len, len);
    lemma_mul_is_commutative(a, len);
    lemma_div_multiples_vanish(a, len);
    assert(a * 0 == 0) by (nonlinear_arith);
}

/// One coordinate of the point `t` of `len` along a segment.
fn coord_along(from: i32, to: i32, t: u64, len: u64) -> (r: i32)
    requires
        0 < len,
        t <= len,
    ensures
        r == from + along(to - from, t as int, len as int),
        t == 0 ==> r == from,
        t == len ==> r == to,
{
    let d: i64 = to as i64 - from as i64;
    if d >= 0 {
        proof {
            lemma_fraction_bound(d as int, t as int, len as int);
        }
        assert(d * t <= 0x1_0000_0000 * 0xffff_ffff_ffff_ffff) by (nonlinear_arith)
            requires
                0 <= d <= 0x1_0000_0000,
                0 <= t <= 0xffff_ffff_ffff_ffff,
        ;
        let q: u128 = (d as u128 * t as u128) / (len as u128);
        (from as i64 + q as i64) as i32
    } else {
        proof {
            lemma_fraction_bound(-d as int, t as int, len as int);
        }
        assert((-d) * t <= 0x1_0000_0000 * 0xffff_ffff_ffff_ffff) by (nonlinear_arith)
            requires
                0 <= -d <= 0x1_0000_0000,
                0 <= t <= 0xffff_ffff_ffff_ffff,
        ;
        let q: u128 = ((-d) as u128 * t as u128) / (len as u128);
        (from as i64 - q as i64) as i32
    }
}

/// The grid point `t` grid steps along the segment of length `len` from
/// `from` to `to`.
pub fn point_at(from: ClipContourPoint, to: ClipContourPoint, t: u64, len: u64) -> (p: ClipContourPoint)
    requires
        0 < len,
        t <= len,
    ensures
        p == point_along(from, to, t as int, len as int),
        t == 0 ==> p == from,
        t == len ==> p == to,
{
    ClipContourPoint { x: coord_along(from.x, to.x, t, len), y: coord_along(from.y, to.y, t, len) }
}

/// A segment's length is a number.
pub proof fn lemma_segment_length_nonnegative(from: ClipContourPoint, to: ClipContourPoint)
    ensures
        segment_length(from, to) >= 0,
        is_sqrt_floor(
            (to.x - from.x) * (to.x - from.x) + (to.y - from.y) * (to.y - from.y),
            segment_length(from, to),
        ),
{
    let dx = to.x - from.x;
    let dy = to.y - from.y;
    assert(dx * dx >= 0 && dy * dy >= 0) by (nonlinear_arith);
    lemma_sqrt_floor_exists(dx * dx + dy * dy);
}

/// What is rounded off a fraction of a span does not reach the next
/// multiple: the rounded fraction times the whole is at most the span times
/// the part.
proof fn lemma_fraction_product(a: int, t: int, len: int)
    requires
        0 <= a,
        0 <= t,
        0 < len,
    ensures
        0 <= ((a * t) / len) * len <= a * t,
{
    lemma_fundamental_div_mod(a * t, len);
    lemma_mod_bound(a * t, len);
    assert(a * t >= 0) by (nonlinear_arith)
        requires
            0 <= a,
            0 <= t,
    ;
    lemma_div_is_ordered(0, a * t, len);
    lemma_mul_is_commutative(len, (a * t) / len);
    assert(((a * t) / len) * len >= 0) by (nonlinear_arith)
        requires
            (a * t) / len >= 0,
            len > 0,
    ;
}

/// The point `t` grid steps along a segment lies no farther than `t` grid
/// steps from the segment's start.
pub proof fn lemma_point_along_reach(from: ClipContourPoint, to: ClipContourPoint, t: int, len: int)
    requires
        len == segment_length(from, to),
        0 < len,
        0 <= t <= len,
    ensures
        segment_length(from, point_along(from, to, t, len)) <= t,
{
    let dx = to.x - from.x;
    let dy = to.y - from.y;
    let a = if dx >= 0 { dx } else { -dx };
    let b = if dy >= 0 { dy } else { -dy };
    let x = (a * t) / len;
    let y = (b * t) / len;
    let p = point_along(from, to, t, len);
    lemma_segment_length_nonnegative(from, to);
    lemma_fraction_bound(a, t, len);
    lemma_fraction_bound(b, t, len);
    lemma_fraction_product(a, t, len);
    lemma_fraction_product(b, t, len);
    assert(a * a == dx * dx && b * b == dy * dy) by (nonlinear_arith)
        requires
            a == dx || a == -dx,
            b == dy || b == -dy,
    ;
    let px = p.x - from.x;
    let py = p.y - from.y;
    assert(px == x || px == -x);
    assert(py == y || py == -y);
    assert(px * px == x * x && py * py == y * y) by (nonlinear_arith)
        requires
            px == x || px == -x,
            py == y || py == -y,
    ;
    let n = px * px + py * py;
    lemma_segment_length_nonnegative(from, p);
    let r = segment_length(from, p);
    assert(r * r <= n);
    if t == 0 {
        assert(n == 0) by (nonlinear_arith)
            requires
                n == x * x + y * y,
                x == 0,
                y == 0,
        ;
        assert(r == 0) by (nonlinear_arith)
            requires
                0 <= r,
                r * r <= 0,
        ;
    } else {
        assert((x * len) * (x * len) <= (a * t) * (a * t)) by (nonlinear_arith)
            requires
                0 <= x * len <= a * t,
        ;
        assert((y * len) * (y * len) <= (b * t) * (b * t)) by (nonlinear_arith)
            requires
                0 <= y * len <= b * t,
        ;
        assert((x * len) * (x * len) == (x * x) * (len * len)) by (nonlinear_arith);
        assert((y * len) * (y * len) == (y * y) * (len * len)) by (nonlinear_arith);
        assert((a * t) * (a * t) == (a * a) * (t * t)) by (nonlinear_arith);
        assert((b * t) * (b * t) == (b * b) * (t * t)) by (nonlinear_arith);
        assert(n * (len * len) == (x * x) * (len * len) + (y * y) * (len * len)) by (nonlinear_arith)
            requires
                n == x * x + y * y,
        ;
        assert((a * a + b * b) * (t * t) == (a * a) * (t * t) + (b * b) * (t * t)) by (nonlinear_arith);
        assert(n * (len * len) <= (a * a + b * b) * (t * t));
        assert((a * a + b * b) * (t * t) < ((len + 1) * t) * ((len + 1) * t)) by (nonlinear_arith)
            requires
                a * a + b * b < (len + 1) * (len + 1),
                t >= 1,
        ;
        assert(((len + 1) * t) * ((len + 1) * t) <= (len * (t + 1)) * (len * (t + 1))) by (nonlinear_arith)
            requires
                1 <= t <= len,
        ;
        assert(n < (t + 1) * (t + 1)) by (nonlinear_arith)
            requires
                n * (len * len) < (len * (t + 1)) * (len * (t + 1)),
                len > 0,
                t >= 0,
                n >= 0,
        ;
        assert(r <= t) by (nonlinear_arith)
            requires
                0 <= r,
                r * r <= n,
                n < (t + 1) * (t + 1),
                t >= 0,
        ;
    }
}

} // verus!
