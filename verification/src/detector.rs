use vstd::prelude::*;

use crate::image::GreyscaleImage;

verus! {

/// Fixed-point scale of the slope boundary table: slopes are compared as
/// `dy * ANGLE_SCALE` against `dx * tan_boundaries()[k]`.
pub const ANGLE_SCALE: u64 = 16777216;

/// Saturate a non-negative value into the 8-bit sample range.
pub open spec fn sat255(v: int) -> int {
    if v > 255 {
        255
    } else {
        v
    }
}

/// `r` is the nearest integer to the square root of `n`, characterised
/// without square roots: `(r - 1/2)^2 <= n < (r + 1/2)^2`, scaled by 4.
pub open spec fn is_rounded_sqrt(n: int, r: int) -> bool {
    if n == 0 {
        r == 0
    } else {
        1 <= r && (2 * r - 1) * (2 * r - 1) <= 4 * n && 4 * n < (2 * r + 1) * (2 * r + 1)
    }
}

/// The nearest integer to the square root of `n`.
pub open spec fn rounded_sqrt(n: int) -> int {
    choose|r: int| is_rounded_sqrt(n, r)
}

/// Gradient magnitude of one pixel: the rounded euclidean norm of the two
/// derivative samples, saturated into the sample range.
pub open spec fn magnitude_of(dx: int, dy: int) -> int {
    sat255(rounded_sqrt(dx * dx + dy * dy))
}

proof fn lemma_rounded_sqrt_exists(n: int) -> (r: int)
    requires
        n >= 0,
    ensures
        is_rounded_sqrt(n, r),
    decreases n,
{
    if n == 0 {
        0
    } else if n == 1 {
        assert(is_rounded_sqrt(1, 1)) by (nonlinear_arith);
        1
    } else {
        let r0 = lemma_rounded_sqrt_exists(n - 1);
        if 4 * n < (2 * r0 + 1) * (2 * r0 + 1) {
            assert(is_rounded_sqrt(n, r0)) by (nonlinear_arith)
                requires
                    n >= 2,
                    1 <= r0,
                    (2 * r0 - 1) * (2 * r0 - 1) <= 4 * (n - 1),
                    4 * n < (2 * r0 + 1) * (2 * r0 + 1),
            ;
            r0
        } else {
            assert(is_rounded_sqrt(n, r0 + 1)) by (nonlinear_arith)
                requires
                    n >= 2,
                    1 <= r0,
                    (2 * r0 - 1) * (2 * r0 - 1) <= 4 * (n - 1),
                    4 * (n - 1) < (2 * r0 + 1) * (2 * r0 + 1),
                    4 * n >= (2 * r0 + 1) * (2 * r0 + 1),
            ;
            r0 + 1
        }
    }
}

proof fn lemma_rounded_sqrt_unique(n: int, r1: int, r2: int)
    by (nonlinear_arith)
    requires
        n >= 1,
        1 <= r1,
        1 <= r2,
        (2 * r1 - 1) * (2 * r1 - 1) <= 4 * n,
        4 * n < (2 * r1 + 1) * (2 * r1 + 1),
        (2 * r2 - 1) * (2 * r2 - 1) <= 4 * n,
        4 * n < (2 * r2 + 1) * (2 * r2 + 1),
    ensures
        r1 == r2,
{
}

/// Pins down `rounded_sqrt` from any witness of its characterisation.
pub proof fn lemma_rounded_sqrt_is(n: int, r: int)
    requires
        n >= 0,
        is_rounded_sqrt(n, r),
    ensures
        rounded_sqrt(n) == r,
{
    let rr = rounded_sqrt(n);
    assert(is_rounded_sqrt(n, rr));
    if n == 0 {
    } else {
        lemma_rounded_sqrt_unique(n, rr, r);
    }
}

/// Law: both derivatives zero give magnitude zero.
pub proof fn lemma_zero_magnitude()
    ensures
        magnitude_of(0, 0) == 0,
{
    lemma_rounded_sqrt_is(0, 0);
}

fn sq(v: u64) -> (r: u64)
    requires
        v <= 65535,
    ensures
        r == v * v,
{
    proof {
        assert(v * v <= 65535 * 65535) by (nonlinear_arith)
            requires
                v <= 65535,
        ;
    }
    v * v
}

/// Rounded, saturating euclidean norm of one derivative pair.
fn magnitude_pixel(dx: u8, dy: u8) -> (r: u8)
    ensures
        r as int == magnitude_of(dx as int, dy as int),
{
    proof {
        assert((dx as int) * (dx as int) + (dy as int) * (dy as int) <= 130050)
            by (nonlinear_arith)
            requires
                dx <= 255,
                dy <= 255,
        ;
        assert((dx as int) * (dx as int) >= 0 && (dy as int) * (dy as int) >= 0)
            by (nonlinear_arith);
    }
    let n: u64 = (dx as u64) * (dx as u64) + (dy as u64) * (dy as u64);
    let mut s: u64 = 0;
    while s < 361 && sq(s + 1) <= n
        invariant
            n <= 130050,
            s <= 361,
            s * s <= n,
        decreases n - s * s,
    {
        proof {
            assert((s + 1) * (s + 1) > s * s) by (nonlinear_arith)
                requires
                    s >= 0,
            ;
        }
        s = s + 1;
    }
    proof {
        assert(n < (s + 1) * (s + 1)) by {
            if s < 361 {
            } else {
                assert(n < (s + 1) * (s + 1)) by (nonlinear_arith)
                    requires
                        s == 361,
                        n <= 130050,
                ;
            }
        }
    }
    let rounded: u64 = if 4 * n >= sq(2 * s + 1) {
        s + 1
    } else {
        s
    };
    proof {
        if n == 0 {
            assert(s == 0) by (nonlinear_arith)
                requires
                    s * s <= 0,
            ;
            assert(rounded == 0);
        } else {
            assert(is_rounded_sqrt(n as int, rounded as int)) by (nonlinear_arith)
                requires
                    n >= 1,
                    s * s <= n < (s + 1) * (s + 1),
                    rounded == (if 4 * n >= (2 * s + 1) * (2 * s + 1) {
                        s + 1
                    } else {
                        s as int
                    }),
            ;
        }
        lemma_rounded_sqrt_is(n as int, rounded as int);
    }
    if rounded > 255 {
        255
    } else {
        rounded as u8
    }
}

/// The slope boundaries that separate adjacent whole degrees of orientation:
/// entry `k` holds `tan((k + 0.5) degrees)` scaled by `ANGLE_SCALE` and
/// rounded, for the boundaries between 0..=90 degrees of upward slope.
pub open spec fn tan_boundaries() -> Seq<u32> {
    seq![
        146413u32, 439327u32, 732509u32, 1026138u32, 1320396u32, 1615462u32,
        1911522u32, 2208762u32, 2507372u32, 2807543u32, 3109473u32, 3413363u32,
        3719419u32, 4027853u32, 4338883u32, 4652734u32, 4969638u32, 5289836u32,
        5613578u32, 5941124u32, 6272744u32, 6608721u32, 6949350u32, 7294941u32,
        7645818u32, 8002322u32, 8364811u32, 8733666u32, 9109285u32, 9492092u32,
        9882535u32, 10281091u32, 10688265u32, 11104597u32, 11530661u32, 11967072u32,
        12414487u32, 12873611u32, 13345200u32, 13830070u32, 14329096u32, 14843227u32,
        15373486u32, 15920984u32, 16486924u32, 17072619u32, 17679497u32, 18309118u32,
        18963193u32, 19643596u32, 20352390u32, 21091851u32, 21864494u32, 22673106u32,
        23520789u32, 24411001u32, 25347608u32, 26334954u32, 27377928u32, 28482061u32,
        29653629u32, 30899788u32, 32228732u32, 33649889u32, 35174165u32, 36814241u32,
        38584955u32, 40503782u32, 42591444u32, 44872703u32, 47377396u32, 50141813u32,
        53210531u32, 56638932u32, 60496686u32, 64872681u32, 69882134u32, 75677131u32,
        82462651u32, 90521757u32, 100256690u32, 112258973u32, 127435607u32, 147251735u32,
        174238050u32, 213174741u32, 274305057u32, 384261422u32, 640696030u32, 1922478534u32,
    ]
}

/// How many whole-degree boundaries the slope `dy / dx` reaches: the
/// quantised arctangent of the slope, in degrees.
pub open spec fn steep_count(dx: int, dy: int, k: int) -> int
    decreases k,
{
    if k <= 0 {
        0
    } else {
        steep_count(dx, dy, k - 1) + (if dy * (ANGLE_SCALE as int) >= dx * (tan_boundaries()[k
            - 1] as int) {
            1int
        } else {
            0int
        })
    }
}

/// Quantised gradient orientation of one pixel. A flat slope (`dx == 0`)
/// collapses to zero; otherwise the arctangent of `dy / dx`, folded upward
/// by 90 degrees, quantised to whole degrees in `90..=180`.
pub open spec fn direction_of(dx: int, dy: int) -> int {
    if dx == 0 {
        0
    } else {
        90 + steep_count(dx, dy, 90)
    }
}

/// Law: a flat slope yields direction zero, whatever the other derivative.
pub proof fn lemma_flat_direction(dy: int)
    ensures
        direction_of(0, dy) == 0,
{
}

#[verifier::rlimit(100)]
fn tan_table() -> (r: Vec<u32>)
    ensures
        r@ == tan_boundaries(),
{
    let mut t: Vec<u32> = Vec::new();
    t.push(146413);
    t.push(439327);
    t.push(732509);
    t.push(1026138);
    t.push(1320396);
    t.push(1615462);
    t.push(1911522);
    t.push(2208762);
    t.push(2507372);
    t.push(2807543);
    t.push(3109473);
    t.push(3413363);
    t.push(3719419);
    t.push(4027853);
    t.push(4338883);
    t.push(4652734);
    t.push(4969638);
    t.push(5289836);
    t.push(5613578);
    t.push(5941124);
    t.push(6272744);
    t.push(6608721);
    t.push(6949350);
    t.push(7294941);
    t.push(7645818);
    t.push(8002322);
    t.push(8364811);
    t.push(8733666);
    t.push(9109285);
    t.push(9492092);
    t.push(9882535);
    t.push(10281091);
    t.push(10688265);
    t.push(11104597);
    t.push(11530661);
    t.push(11967072);
    t.push(12414487);
    t.push(12873611);
    t.push(13345200);
    t.push(13830070);
    t.push(14329096);
    t.push(14843227);
    t.push(15373486);
    t.push(15920984);
    t.push(16486924);
    t.push(17072619);
    t.push(17679497);
    t.push(18309118);
    t.push(18963193);
    t.push(19643596);
    t.push(20352390);
    t.push(21091851);
    t.push(21864494);
    t.push(22673106);
    t.push(23520789);
    t.push(24411001);
    t.push(25347608);
    t.push(26334954);
    t.push(27377928);
    t.push(28482061);
    t.push(29653629);
    t.push(30899788);
    t.push(32228732);
    t.push(33649889);
    t.push(35174165);
    t.push(36814241);
    t.push(38584955);
    t.push(40503782);
    t.push(42591444);
    t.push(44872703);
    t.push(47377396);
    t.push(50141813);
    t.push(53210531);
    t.push(56638932);
    t.push(60496686);
    t.push(64872681);
    t.push(69882134);
    t.push(75677131);
    t.push(82462651);
    t.push(90521757);
    t.push(100256690);
    t.push(112258973);
    t.push(127435607);
    t.push(147251735);
    t.push(174238050);
    t.push(213174741);
    t.push(274305057);
    t.push(384261422);
    t.push(640696030);
    t.push(1922478534);
    proof {
        assert(t@ =~= tan_boundaries());
    }
    t
}

/// Quantised orientation of one derivative pair.
fn direction_pixel(dx: u8, dy: u8) -> (r: u8)
    ensures
        r as int == direction_of(dx as int, dy as int),
{
    if dx == 0 {
        return 0;
    }
    let table = tan_table();
    let lhs: u64 = (dy as u64) * ANGLE_SCALE;
    let mut c: u64 = 0;
    let mut k: usize = 0;
    while k < 90
        invariant
            dx >= 1,
            table@ == tan_boundaries(),
            table@.len() == 90,
            lhs == (dy as int) * (ANGLE_SCALE as int),
            k <= 90,
            c <= k,
            c == steep_count(dx as int, dy as int, k as int),
        decreases 90 - k,
    {
        proof {
            assert((dx as int) * (table@[k as int] as int) <= 255 * 0xffffffff)
                by (nonlinear_arith)
                requires
                    dx <= 255,
                    table@[k as int] <= 0xffffffffu32,
            ;
        }
        let rhs: u64 = (dx as u64) * (table[k] as u64);
        if lhs >= rhs {
            c = c + 1;
        }
        k = k + 1;
    }
    (90 + c) as u8
}

/// Gradient magnitude buffer from the two derivative buffers. The final
/// row and column are left at zero; every other pixel gets the rounded,
/// saturated euclidean norm of its derivative pair.
pub fn magnitude_calculation(x_derivative: &GreyscaleImage, y_derivative: &GreyscaleImage) -> (r:
    GreyscaleImage)
    requires
        x_derivative.wf(),
        y_derivative.wf(),
        x_derivative.spec_width() == y_derivative.spec_width(),
        x_derivative.spec_height() == y_derivative.spec_height(),
    ensures
        r.wf(),
        r.spec_width() == x_derivative.spec_width(),
        r.spec_height() == x_derivative.spec_height(),
        forall|x: int, y: int|
            r.in_range(x, y) ==> r.pix(x, y) as int == (if x < r.spec_width() - 1 && y
                < r.spec_height() - 1 {
                magnitude_of(x_derivative.pix(x, y) as int, y_derivative.pix(x, y) as int)
            } else {
                0int
            }),
{
    let width = x_derivative.width();
    let height = x_derivative.height();
    let mut out = GreyscaleImage::new(width, height);
    if width == 0 || height == 0 {
        return out;
    }
    let wm1 = width - 1;
    let hm1 = height - 1;
    let mut x: usize = 0;
    while x < wm1
        invariant
            x_derivative.wf(),
            y_derivative.wf(),
            x_derivative.spec_width() == width,
            x_derivative.spec_height() == height,
            y_derivative.spec_width() == width,
            y_derivative.spec_height() == height,
            out.wf(),
            out.spec_width() == width,
            out.spec_height() == height,
            width >= 1,
            height >= 1,
            wm1 == width - 1,
            hm1 == height - 1,
            x <= wm1,
            forall|xx: int, yy: int|
                out.in_range(xx, yy) ==> #[trigger] out.pix(xx, yy) as int == (if xx < x && yy
                    < hm1 {
                    magnitude_of(x_derivative.pix(xx, yy) as int, y_derivative.pix(xx, yy) as int)
                } else {
                    0int
                }),
        decreases wm1 - x,
    {
        let mut y: usize = 0;
        while y < hm1
            invariant
                x_derivative.wf(),
                y_derivative.wf(),
                x_derivative.spec_width() == width,
                x_derivative.spec_height() == height,
                y_derivative.spec_width() == width,
                y_derivative.spec_height() == height,
                out.wf(),
                out.spec_width() == width,
                out.spec_height() == height,
                width >= 1,
                height >= 1,
                wm1 == width - 1,
                hm1 == height - 1,
                x < wm1,
                y <= hm1,
                forall|xx: int, yy: int|
                    out.in_range(xx, yy) ==> #[trigger] out.pix(xx, yy) as int == (if (xx < x && yy
                        < hm1) || (xx == x && yy < y) {
                        magnitude_of(
                            x_derivative.pix(xx, yy) as int,
                            y_derivative.pix(xx, yy) as int,
                        )
                    } else {
                        0int
                    }),
            decreases hm1 - y,
        {
            let dx = x_derivative.at(x as isize, y as isize);
            let dy = y_derivative.at(x as isize, y as isize);
            let v = magnitude_pixel(dx, dy);
            out.set(x, y, v);
            y = y + 1;
        }
        x = x + 1;
    }
    out
}

/// Gradient orientation buffer from the two derivative buffers. The final
/// row and column are left at zero; every other pixel gets the quantised
/// orientation of its derivative pair.
pub fn direction(x_derivative: &GreyscaleImage, y_derivative: &GreyscaleImage) -> (r:
    GreyscaleImage)
    requires
        x_derivative.wf(),
        y_derivative.wf(),
        x_derivative.spec_width() == y_derivative.spec_width(),
        x_derivative.spec_height() == y_derivative.spec_height(),
    ensures
        r.wf(),
        r.spec_width() == x_derivative.spec_width(),
        r.spec_height() == x_derivative.spec_height(),
        forall|x: int, y: int|
            r.in_range(x, y) ==> r.pix(x, y) as int == (if x < r.spec_width() - 1 && y
                < r.spec_height() - 1 {
                direction_of(x_derivative.pix(x, y) as int, y_derivative.pix(x, y) as int)
            } else {
                0int
            }),
{
    let width = x_derivative.width();
    let height = x_derivative.height();
    let mut out = GreyscaleImage::new(width, height);
    if width == 0 || height == 0 {
        return out;
    }
    let wm1 = width - 1;
    let hm1 = height - 1;
    let mut x: usize = 0;
    while x < wm1
        invariant
            x_derivative.wf(),
            y_derivative.wf(),
            x_derivative.spec_width() == width,
            x_derivative.spec_height() == height,
            y_derivative.spec_width() == width,
            y_derivative.spec_height() == height,
            out.wf(),
            out.spec_width() == width,
            out.spec_height() == height,
            width >= 1,
            height >= 1,
            wm1 == width - 1,
            hm1 == height - 1,
            x <= wm1,
            forall|xx: int, yy: int|
                out.in_range(xx, yy) ==> #[trigger] out.pix(xx, yy) as int == (if xx < x && yy
                    < hm1 {
                    direction_of(x_derivative.pix(xx, yy) as int, y_derivative.pix(xx, yy) as int)
                } else {
                    0int
                }),
        decreases wm1 - x,
    {
        let mut y: usize = 0;
        while y < hm1
            invariant
                x_derivative.wf(),
                y_derivative.wf(),
                x_derivative.spec_width() == width,
                x_derivative.spec_height() == height,
                y_derivative.spec_width() == width,
                y_derivative.spec_height() == height,
                out.wf(),
                out.spec_width() == width,
                out.spec_height() == height,
                width >= 1,
                height >= 1,
                wm1 == width - 1,
                hm1 == height - 1,
                x < wm1,
                y <= hm1,
                forall|xx: int, yy: int|
                    out.in_range(xx, yy) ==> #[trigger] out.pix(xx, yy) as int == (if (xx < x && yy
                        < hm1) || (xx == x && yy < y) {
                        direction_of(
                            x_derivative.pix(xx, yy) as int,
                            y_derivative.pix(xx, yy) as int,
                        )
                    } else {
                        0int
                    }),
            decreases hm1 - y,
        {
            let dx = x_derivative.at(x as isize, y as isize);
            let dy = y_derivative.at(x as isize, y as isize);
            let v = direction_pixel(dx, dy);
            out.set(x, y, v);
            y = y + 1;
        }
        x = x + 1;
    }
    out
}

/// The two neighbours a pixel is compared against, by orientation sector:
/// the first of each pair is the `r` neighbour, the second the `q` one.
pub open spec fn sector_neighbours(a: int, x: int, y: int) -> ((int, int), (int, int)) {
    if a < 22 || 157 <= a {
        ((x, y - 1), (x, y + 1))
    } else if a < 67 {
        ((x - 1, y + 1), (x + 1, y - 1))
    } else if a < 112 {
        ((x - 1, y), (x + 1, y))
    } else {
        ((x + 1, y + 1), (x - 1, y - 1))
    }
}

/// What suppression leaves at one pixel: its own magnitude where it is at
/// least as strong as both sector neighbours (read under edge replication),
/// and zero otherwise.
pub open spec fn nms_value(magnitude: GreyscaleImage, direction: GreyscaleImage, x: int, y: int)
    -> u8 {
    let a = direction.pix(x, y) as int;
    let m = magnitude.pix(x, y);
    let pair = sector_neighbours(a, x, y);
    if m >= magnitude.pix_clamped(pair.1.0, pair.1.1) && m >= magnitude.pix_clamped(
        pair.0.0,
        pair.0.1,
    ) {
        m
    } else {
        0u8
    }
}

/// Law: on a constant-magnitude plateau every processed pixel survives
/// suppression, whatever the orientation buffer holds, because the
/// tie-inclusive comparison keeps pixels equal to their neighbours.
pub proof fn lemma_plateau_survives(
    magnitude: GreyscaleImage,
    direction: GreyscaleImage,
    c: u8,
    x: int,
    y: int,
)
    requires
        magnitude.wf(),
        0 <= x < magnitude.spec_width() - 1,
        0 <= y < magnitude.spec_height() - 1,
        forall|i: int, j: int| magnitude.in_range(i, j) ==> magnitude.pix(i, j) == c,
    ensures
        nms_value(magnitude, direction, x, y) == c,
{
    let a = direction.pix(x, y) as int;
    let pair = sector_neighbours(a, x, y);
    let w = magnitude.spec_width();
    let h = magnitude.spec_height();
    assert(magnitude.pix_clamped(pair.0.0, pair.0.1) == c);
    assert(magnitude.pix_clamped(pair.1.0, pair.1.1) == c);
    assert(magnitude.pix(x, y) == c);
}

/// Directional thinning: keep a pixel's magnitude only where it is a local
/// maximum along its quantised gradient direction. The final row and column
/// are always zero.
pub fn non_maximum_suppression(magnitude: &GreyscaleImage, direction: &GreyscaleImage) -> (r:
    GreyscaleImage)
    requires
        magnitude.wf(),
        direction.wf(),
        magnitude.spec_width() == direction.spec_width(),
        magnitude.spec_height() == direction.spec_height(),
        forall|x: int, y: int|
            0 <= x < magnitude.spec_width() - 1 && 0 <= y < magnitude.spec_height() - 1
                ==> #[trigger] direction.pix(x, y) <= 180,
    ensures
        r.wf(),
        r.spec_width() == magnitude.spec_width(),
        r.spec_height() == magnitude.spec_height(),
        forall|x: int, y: int|
            r.in_range(x, y) ==> #[trigger] r.pix(x, y) == (if x < r.spec_width() - 1 && y
                < r.spec_height() - 1 {
                nms_value(*magnitude, *direction, x, y)
            } else {
                0u8
            }),
{
    let width = magnitude.width();
    let height = magnitude.height();
    let mut out = GreyscaleImage::new(width, height);
    if width == 0 || height == 0 {
        return out;
    }
    let wm1 = width - 1;
    let hm1 = height - 1;
    let mut x: usize = 0;
    while x < wm1
        invariant
            magnitude.wf(),
            direction.wf(),
            magnitude.spec_width() == width,
            magnitude.spec_height() == height,
            direction.spec_width() == width,
            direction.spec_height() == height,
            forall|xx: int, yy: int|
                0 <= xx < width - 1 && 0 <= yy < height - 1 ==> #[trigger] direction.pix(xx, yy)
                    <= 180,
            out.wf(),
            out.spec_width() == width,
            out.spec_height() == height,
            width >= 1,
            height >= 1,
            wm1 == width - 1,
            hm1 == height - 1,
            x <= wm1,
            forall|xx: int, yy: int|
                out.in_range(xx, yy) ==> #[trigger] out.pix(xx, yy) == (if xx < x && yy < hm1 {
                    nms_value(*magnitude, *direction, xx, yy)
                } else {
                    0u8
                }),
        decreases wm1 - x,
    {
        let mut y: usize = 0;
        while y < hm1
            invariant
                magnitude.wf(),
                direction.wf(),
                magnitude.spec_width() == width,
                magnitude.spec_height() == height,
                direction.spec_width() == width,
                direction.spec_height() == height,
                forall|xx: int, yy: int|
                    0 <= xx < width - 1 && 0 <= yy < height - 1 ==> #[trigger] direction.pix(
                        xx,
                        yy,
                    ) <= 180,
                out.wf(),
                out.spec_width() == width,
                out.spec_height() == height,
                width >= 1,
                height >= 1,
                wm1 == width - 1,
                hm1 == height - 1,
                x < wm1,
                y <= hm1,
                forall|xx: int, yy: int|
                    out.in_range(xx, yy) ==> #[trigger] out.pix(xx, yy) == (if (xx < x && yy < hm1)
                        || (xx == x && yy < y) {
                        nms_value(*magnitude, *direction, xx, yy)
                    } else {
                        0u8
                    }),
            decreases hm1 - y,
        {
            let xi = x as isize;
            let yi = y as isize;
            let angle = direction.at(xi, yi);
            let r_i: (isize, isize);
            let q_i: (isize, isize);
            if angle < 22 || (157 <= angle && angle <= 180) {
                r_i = (xi, yi - 1);
                q_i = (xi, yi + 1);
            } else if angle < 67 {
                r_i = (xi - 1, yi + 1);
                q_i = (xi + 1, yi - 1);
            } else if angle < 112 {
                r_i = (xi - 1, yi);
                q_i = (xi + 1, yi);
            } else {
                r_i = (xi + 1, yi + 1);
                q_i = (xi - 1, yi - 1);
            }
            let m = magnitude.at(xi, yi);
            if m >= magnitude.at(q_i.0, q_i.1) && m >= magnitude.at(r_i.0, r_i.1) {
                out.set(x, y, m);
            }
            y = y + 1;
        }
        x = x + 1;
    }
    out
}

/// Three-way strength classification of one sample.
pub open spec fn threshold_of(v: int, low: int, high: int, weak: int) -> int {
    if v < low {
        0
    } else if v < high {
        weak
    } else {
        255
    }
}

/// Per-pixel double thresholding over the whole buffer, border included:
/// below `low_threshold` becomes zero, below `high_threshold` becomes the
/// weak marker, and everything else the sample maximum.
pub fn double_thresholding(
    image: &GreyscaleImage,
    low_threshold: u8,
    high_threshold: u8,
    weak_intensity: u8,
) -> (r: GreyscaleImage)
    requires
        image.wf(),
    ensures
        r.wf(),
        r.spec_width() == image.spec_width(),
        r.spec_height() == image.spec_height(),
        forall|x: int, y: int|
            r.in_range(x, y) ==> #[trigger] r.pix(x, y) as int == threshold_of(
                image.pix(x, y) as int,
                low_threshold as int,
                high_threshold as int,
                weak_intensity as int,
            ),
{
    let width = image.width();
    let height = image.height();
    let mut out = GreyscaleImage::new(width, height);
    if width == 0 || height == 0 {
        return out;
    }
    let mut x: usize = 0;
    while x < width
        invariant
            image.wf(),
            image.spec_width() == width,
            image.spec_height() == height,
            out.wf(),
            out.spec_width() == width,
            out.spec_height() == height,
            width >= 1,
            height >= 1,
            x <= width,
            forall|xx: int, yy: int|
                out.in_range(xx, yy) ==> #[trigger] out.pix(xx, yy) as int == (if xx < x {
                    threshold_of(
                        image.pix(xx, yy) as int,
                        low_threshold as int,
                        high_threshold as int,
                        weak_intensity as int,
                    )
                } else {
                    0int
                }),
        decreases width - x,
    {
        let mut y: usize = 0;
        while y < height
            invariant
                image.wf(),
                image.spec_width() == width,
                image.spec_height() == height,
                out.wf(),
                out.spec_width() == width,
                out.spec_height() == height,
                width >= 1,
                height >= 1,
                x < width,
                y <= height,
                forall|xx: int, yy: int|
                    out.in_range(xx, yy) ==> #[trigger] out.pix(xx, yy) as int == (if xx < x || (xx
                        == x && yy < y) {
                        threshold_of(
                            image.pix(xx, yy) as int,
                            low_threshold as int,
                            high_threshold as int,
                            weak_intensity as int,
                        )
                    } else {
                        0int
                    }),
            decreases height - y,
        {
            let val = image.at(x as isize, y as isize);
            let out_val: u8 = if val < low_threshold {
                0
            } else if val < high_threshold {
                weak_intensity
            } else {
                255
            };
            out.set(x, y, out_val);
            y = y + 1;
        }
        x = x + 1;
    }
    out
}

} // verus!
