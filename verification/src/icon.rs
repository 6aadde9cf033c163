//! The icon of the program: a terminal window with a prompt and a cursor, drawn
//! at any size on a grid of 58 by 58 points, with softened edges.
use vstd::prelude::*;

use crate::binary::{
    farther, is_nearest_root, law_bytes_are_read_back, law_doubling_moves_the_point,
    law_integer_products, law_integer_sums_are_exact, law_integers_are_exact,
    law_integers_are_ordered, law_negation_is_exact, law_order, law_plus_commutes, law_quotients,
    law_rounding_ignores_scale, law_rounding_keeps_sign, law_sum_is_rounded_once, law_times_one,
    law_zero, lemma_less, lemma_plus_sign, lemma_square_sign, nearest, nearest_root, Binary, Num,
};

verus! {

/// The four channels of a pixel; alpha is not multiplied into the others.
#[derive(Debug, Clone, Copy, PartialEq, Eq, Structural)]
pub struct Pixel {
    pub r: u8,
    pub g: u8,
    pub b: u8,
    pub a: u8,
}

impl Pixel {
    /// The channel with the given number.
    pub open spec fn channel(self, c: int) -> u8 {
        if c == 0 {
            self.r
        } else if c == 1 {
            self.g
        } else if c == 2 {
            self.b
        } else {
            self.a
        }
    }
}

/// The opaque pixel of a colour.
pub open spec fn opaque(r: u8, g: u8, b: u8) -> Pixel {
    Pixel { r, g, b, a: 255 }
}

/// The number nearest to an integer.
pub open spec fn int_num(n: int) -> Num {
    nearest(n, 1, 0)
}

/// The number nearest to a fraction.
pub open spec fn frac_num(n: int, d: nat) -> Num {
    nearest(n, d, 0)
}

/// The number limited to the range from 0 to 1.
pub open spec fn unit(x: Num) -> Num {
    x.clamp(int_num(0), int_num(1))
}

/// The inner product of two vectors.
pub open spec fn dot(ax: Num, ay: Num, bx: Num, by: Num) -> Num {
    ax.times(bx).plus(ay.times(by))
}

/// How far a point is covered by a rectangle with round corners.
pub open spec fn rect_cover(
    x: Num,
    y: Num,
    left: Num,
    top: Num,
    width: Num,
    height: Num,
    radius: Num,
) -> Num {
    let right = left.plus(width);
    let bottom = top.plus(height);
    let dx = x.minus(x.clamp(left.plus(radius), right.minus(radius)));
    let dy = y.minus(y.clamp(top.plus(radius), bottom.minus(radius)));
    let distance = dot(dx, dy, dx, dy).root();
    unit(radius.plus(frac_num(3, 4)).minus(distance))
}

/// How far a point is covered by a line of the given width.
pub open spec fn segment_cover(
    x: Num,
    y: Num,
    start: (Num, Num),
    end: (Num, Num),
    width: Num,
) -> Num {
    let vx = end.0.minus(start.0);
    let vy = end.1.minus(start.1);
    let len_sq = dot(vx, vy, vx, vy);
    if !frac_num(1, 0x80_0000).less(len_sq) {
        int_num(0)
    } else {
        let t = unit(dot(x.minus(start.0), y.minus(start.1), vx, vy).over(len_sq));
        let dx = x.minus(start.0.plus(t.times(vx)));
        let dy = y.minus(start.1.plus(t.times(vy)));
        let distance = dot(dx, dy, dx, dy).root();
        unit(width.over(int_num(2)).plus(frac_num(13, 20)).minus(distance))
    }
}

/// How far a point is covered by the lines from each of the points to the next.
pub open spec fn polyline_cover(x: Num, y: Num, points: Seq<(Num, Num)>, width: Num) -> Num
    decreases points.len(),
{
    if points.len() < 2 {
        int_num(0)
    } else {
        let n = points.len() as int;
        polyline_cover(x, y, points.drop_last(), width).max(
            segment_cover(x, y, points[n - 2], points[n - 1], width),
        )
    }
}

/// A channel on the way from one value to another.
pub open spec fn lerp(from: u8, to: u8, alpha: Num) -> u8 {
    int_num(from as int).plus(
        int_num(to as int).minus(int_num(from as int)).times(alpha),
    ).to_byte()
}

/// A colour laid over another.
pub open spec fn mixed(base: Pixel, overlay: Pixel, alpha: Num) -> Pixel {
    let a = unit(alpha);
    Pixel {
        r: lerp(base.r, overlay.r, a),
        g: lerp(base.g, overlay.g, a),
        b: lerp(base.b, overlay.b, a),
        a: lerp(base.a, overlay.a, a),
    }
}

/// A colour laid over another where it covers anything.
pub open spec fn layered(base: Pixel, overlay: Pixel, alpha: Num) -> Pixel {
    if int_num(0).less(alpha) {
        mixed(base, overlay, alpha)
    } else {
        base
    }
}

/// The points of the prompt.
pub open spec fn prompt_points() -> Seq<(Num, Num)> {
    seq![(int_num(17), int_num(20)), (int_num(27), int_num(29)), (int_num(17), int_num(38))]
}

/// The colour at a point of the grid.
pub open spec fn point_color(x: Num, y: Num) -> Pixel {
    let outer = rect_cover(
        x,
        y,
        int_num(0),
        int_num(0),
        int_num(58),
        int_num(58),
        int_num(9),
    );
    if !int_num(0).less(outer) {
        Pixel { r: 0, g: 0, b: 0, a: 0 }
    } else {
        let inner = rect_cover(
            x,
            y,
            int_num(6),
            int_num(6),
            int_num(46),
            int_num(46),
            int_num(5),
        );
        let screen = layered(opaque(39, 114, 159), opaque(16, 18, 24), inner);
        let prompt = polyline_cover(x, y, prompt_points(), frac_num(27, 10));
        let prompted = layered(screen, opaque(95, 211, 167), prompt);
        let cursor = segment_cover(
            x,
            y,
            (int_num(33), int_num(40)),
            (int_num(45), int_num(40)),
            frac_num(29, 10),
        );
        let done = layered(prompted, opaque(230, 238, 245), cursor);
        Pixel { a: outer.times(int_num(255)).to_byte(), ..done }
    }
}

/// The place on the grid of a row or column of an icon of the given size.
pub open spec fn grid(size: int, i: int) -> Num {
    int_num(i).over(int_num(size).over(int_num(58)))
}

/// The pixel of an icon of the given size.
pub open spec fn icon_pixel(size: int, x: int, y: int) -> Pixel {
    point_color(grid(size, x), grid(size, y))
}

/// The byte with the given number of an icon of the given size: row by row,
/// four to a pixel.
pub open spec fn icon_byte(size: int, i: int) -> u8 {
    icon_pixel(size, (i / 4) % size, (i / 4) / size).channel(i % 4)
}

/// The bytes of an icon of the given size.
pub open spec fn icon_bytes(size: nat) -> Seq<u8> {
    Seq::new(4 * size * size, |i: int| icon_byte(size as int, i))
}

fn unit_binary(x: Binary) -> (r: Binary)
    requires
        x.within(20_000),
    ensures
        r@ == unit(x@),
        r == x || r.within(120),
{
    x.clamp(Binary::integer(0), Binary::integer(1))
}

fn dot_binary(ax: Binary, ay: Binary, bx: Binary, by: Binary) -> (r: Binary)
    requires
        ax.within(10_000),
        ay.within(10_000),
        bx.within(10_000),
        by.within(10_000),
    ensures
        r@ == dot(ax@, ay@, bx@, by@),
        r.within(farther(ax@, ay@) + farther(bx@, by@) + 240),
{
    ax.times(bx).plus(ay.times(by))
}

/// The length of a vector.
fn length(dx: Binary, dy: Binary) -> (r: Binary)
    requires
        dx.within(5_000),
        dy.within(5_000),
    ensures
        r@ == dot(dx@, dy@, dx@, dy@).root(),
        r.within(10_400),
{
    proof {
        lemma_square_sign(dx@);
        lemma_square_sign(dy@);
        lemma_plus_sign(dx@.times(dx@), dy@.times(dy@));
    }
    dot_binary(dx, dy, dx, dy).root()
}

fn rounded_rect_alpha(
    x: Binary,
    y: Binary,
    left: Binary,
    top: Binary,
    width: Binary,
    height: Binary,
    radius: Binary,
) -> (r: Binary)
    requires
        x.within(1_000),
        y.within(1_000),
        left.within(120),
        top.within(120),
        width.within(120),
        height.within(120),
        radius.within(120),
    ensures
        r@ == rect_cover(x@, y@, left@, top@, width@, height@, radius@),
        r.within(20_000),
{
    let right = left.plus(width);
    let bottom = top.plus(height);
    let dx = x.minus(x.clamp(left.plus(radius), right.minus(radius)));
    let dy = y.minus(y.clamp(top.plus(radius), bottom.minus(radius)));
    let distance = length(dx, dy);
    unit_binary(radius.plus(Binary::ratio(3, 4)).minus(distance))
}

fn segment_alpha(
    x: Binary,
    y: Binary,
    start: (Binary, Binary),
    end: (Binary, Binary),
    width: Binary,
) -> (r: Binary)
    requires
        x.within(1_000),
        y.within(1_000),
        start.0.within(120),
        start.1.within(120),
        end.0.within(120),
        end.1.within(120),
        width.within(120),
    ensures
        r@ == segment_cover(
            x@,
            y@,
            (start.0@, start.1@),
            (end.0@, end.1@),
            width@,
        ),
        r.within(20_000),
{
    let vx = end.0.minus(start.0);
    let vy = end.1.minus(start.1);
    let len_sq = dot_binary(vx, vy, vx, vy);
    if !Binary::ratio(1, 0x80_0000).less(len_sq) {
        return Binary::integer(0);
    }
    proof {
        law_rounding_keeps_sign(1, 0x80_0000, 0);
        lemma_less(frac_num(1, 0x80_0000), len_sq@);
    }
    let t = foot(x.minus(start.0), y.minus(start.1), vx, vy, len_sq);
    let dx = offset(x, start.0, t, vx);
    let dy = offset(y, start.1, t, vy);
    stroke(width, length(dx, dy))
}

/// Where the foot of the perpendicular from a point on a line lies, from 0 to 1.
fn foot(ax: Binary, ay: Binary, vx: Binary, vy: Binary, len_sq: Binary) -> (t: Binary)
    requires
        ax.within(1_120),
        ay.within(1_120),
        vx.within(240),
        vy.within(240),
        len_sq.within(720),
        len_sq@.m != 0,
    ensures
        t@ == unit(dot(ax@, ay@, vx@, vy@).over(len_sq@)),
        t.within(3_000),
{
    unit_binary(dot_binary(ax, ay, vx, vy).over(len_sq))
}

/// How far a line of the given width covers what is at the given distance.
fn stroke(width: Binary, distance: Binary) -> (r: Binary)
    requires
        width.within(120),
        distance.within(10_400),
    ensures
        r@ == unit(width@.over(int_num(2)).plus(frac_num(13, 20)).minus(distance@)),
        r.within(20_000),
{
    unit_binary(width.over(Binary::integer(2)).plus(Binary::ratio(13, 20)).minus(distance))
}

/// How far `x` is from the point that lies `t` times `v` from `start`.
fn offset(x: Binary, start: Binary, t: Binary, v: Binary) -> (r: Binary)
    requires
        x.within(1_000),
        start.within(120),
        t.within(3_000),
        v.within(240),
    ensures
        r@ == x@.minus(start@.plus(t@.times(v@))),
        r.within(3_700),
{
    x.minus(start.plus(t.times(v)))
}

/// The contents of points.
pub open spec fn point_nums(points: Seq<(Binary, Binary)>) -> Seq<(Num, Num)> {
    points.map_values(|p: (Binary, Binary)| (p.0@, p.1@))
}

fn polyline_alpha(
    x: Binary,
    y: Binary,
    points: &[(Binary, Binary)],
    width: Binary,
) -> (r: Binary)
    requires
        x.within(1_000),
        y.within(1_000),
        width.within(120),
        forall|i: int|
            0 <= i < points.len() ==> (#[trigger] points@[i]).0.within(120)
                && points@[i].1.within(120),
    ensures
        r@ == polyline_cover(x@, y@, point_nums(points@), width@),
        r.within(20_000),
{
    let mut r = Binary::integer(0);
    let mut i: usize = 1;
    let ghost nums = point_nums(points@);
    if points.len() == 0 {
        return r;
    }
    while i < points.len()
        invariant
            1 <= i <= points.len(),
            x.within(1_000),
            y.within(1_000),
            width.within(120),
            forall|i: int|
                0 <= i < points.len() ==> (#[trigger] points@[i]).0.within(120)
                    && points@[i].1.within(120),
            nums == point_nums(points@),
            r@ == polyline_cover(x@, y@, nums.take(i as int), width@),
            r.within(20_000),
        decreases points.len() - i,
    {
        let p = points[i - 1];
        let q = points[i];
        r = r.max(segment_alpha(x, y, p, q, width));
        assert(nums.take(i + 1).drop_last() =~= nums.take(i as int));
        i += 1;
    }
    assert(nums.take(i as int) =~= nums);
    r
}

fn lerp_u8(from: u8, to: u8, alpha: Binary) -> (r: u8)
    requires
        alpha.within(20_000),
    ensures
        r == lerp(from, to, alpha@),
{
    let a = Binary::integer(from as i32);
    let b = Binary::integer(to as i32);
    a.plus(b.minus(a).times(alpha)).to_byte()
}

fn mix(base: Pixel, overlay: Pixel, alpha: Binary) -> (p: Pixel)
    requires
        alpha.within(20_000),
    ensures
        p == mixed(base, overlay, alpha@),
{
    let a = unit_binary(alpha);
    Pixel {
        r: lerp_u8(base.r, overlay.r, a),
        g: lerp_u8(base.g, overlay.g, a),
        b: lerp_u8(base.b, overlay.b, a),
        a: lerp_u8(base.a, overlay.a, a),
    }
}

fn layer(base: Pixel, overlay: Pixel, alpha: Binary) -> (p: Pixel)
    requires
        alpha.within(20_000),
    ensures
        p == layered(base, overlay, alpha@),
{
    if Binary::integer(0).less(alpha) {
        mix(base, overlay, alpha)
    } else {
        base
    }
}

fn prompt_alpha(x: Binary, y: Binary) -> (r: Binary)
    requires
        x.within(1_000),
        y.within(1_000),
    ensures
        r@ == polyline_cover(x@, y@, prompt_points(), frac_num(27, 10)),
        r.within(20_000),
{
    let points = [
        (Binary::integer(17), Binary::integer(20)),
        (Binary::integer(27), Binary::integer(29)),
        (Binary::integer(17), Binary::integer(38)),
    ];
    let r = polyline_alpha(x, y, &points, Binary::ratio(27, 10));
    assert(point_nums(points@) =~= prompt_points());
    r
}

fn cursor_alpha(x: Binary, y: Binary) -> (r: Binary)
    requires
        x.within(1_000),
        y.within(1_000),
    ensures
        r@ == segment_cover(
            x@,
            y@,
            (int_num(33), int_num(40)),
            (int_num(45), int_num(40)),
            frac_num(29, 10),
        ),
        r.within(20_000),
{
    segment_alpha(
        x,
        y,
        (Binary::integer(33), Binary::integer(40)),
        (Binary::integer(45), Binary::integer(40)),
        Binary::ratio(29, 10),
    )
}

fn square_alpha(x: Binary, y: Binary, corner: i32, side: i32, radius: i32) -> (r: Binary)
    requires
        x.within(1_000),
        y.within(1_000),
    ensures
        r@ == rect_cover(
            x@,
            y@,
            int_num(corner as int),
            int_num(corner as int),
            int_num(side as int),
            int_num(side as int),
            int_num(radius as int),
        ),
        r.within(20_000),
{
    let c = Binary::integer(corner);
    let s = Binary::integer(side);
    rounded_rect_alpha(x, y, c, c, s, s, Binary::integer(radius))
}

/// The colour at a point of the grid.
fn color_at(x: Binary, y: Binary) -> (p: Pixel)
    requires
        x.within(1_000),
        y.within(1_000),
    ensures
        p == point_color(x@, y@),
{
    let outer = square_alpha(x, y, 0, 58, 9);
    if !Binary::integer(0).less(outer) {
        return Pixel { r: 0, g: 0, b: 0, a: 0 };
    }
    let frame = Pixel { r: 39, g: 114, b: 159, a: 255 };
    let back = Pixel { r: 16, g: 18, b: 24, a: 255 };
    let green = Pixel { r: 95, g: 211, b: 167, a: 255 };
    let white = Pixel { r: 230, g: 238, b: 245, a: 255 };
    let screen = layer(frame, back, square_alpha(x, y, 6, 46, 5));
    let prompted = layer(screen, green, prompt_alpha(x, y));
    let done = layer(prompted, white, cursor_alpha(x, y));
    let a = outer.times(Binary::integer(255)).to_byte();
    Pixel { r: done.r, g: done.g, b: done.b, a }
}

/// The icon at the given size: its bytes row by row, four to a pixel, then its
/// width and its height.
pub fn icon_pixels(size: u32) -> (icon: (Vec<u8>, u32, u32))
    requires
        size * size * 4 <= u32::MAX,
    ensures
        icon.0@ == icon_bytes(size as nat),
        icon.1 == size,
        icon.2 == size,
{
    let mut rgba: Vec<u8> = Vec::new();
    if size == 0 {
        assert(rgba@ =~= icon_bytes(0));
        return (rgba, size, size);
    }
    assert(size <= 0x8000) by (nonlinear_arith)
        requires
            size * size * 4 <= u32::MAX,
    ;
    let scale = Binary::integer(size as i32).over(Binary::integer(58));
    let ghost n = size as int;
    let mut y: u32 = 0;
    while y < size
        invariant
            y <= size <= 0x8000,
            size > 0,
            n == size,
            scale@ == int_num(n).over(int_num(58)),
            scale.within(360),
            scale@.m != 0,
            rgba.len() == 4 * (y * n),
            forall|i: int| 0 <= i < rgba.len() ==> #[trigger] rgba@[i] == icon_byte(n, i),
        decreases size - y,
    {
        let yf = Binary::integer(y as i32).over(scale);
        let mut x: u32 = 0;
        while x < size
            invariant
                x <= size <= 0x8000,
                y < size,
                n == size,
                scale@ == int_num(n).over(int_num(58)),
                scale.within(360),
                scale@.m != 0,
                yf@ == grid(n, y as int),
                yf.within(600),
                rgba.len() == 4 * (y * n + x),
                forall|i: int| 0 <= i < rgba.len() ==> #[trigger] rgba@[i] == icon_byte(n, i),
            decreases size - x,
        {
            let xf = Binary::integer(x as i32).over(scale);
            let p = color_at(xf, yf);
            proof {
                lemma_pixel_place(n, x as int, y as int);
                let first = 4 * (y * n + x);
                assert(icon_byte(n, first + 0) == p.r);
                assert(icon_byte(n, first + 1) == p.g);
                assert(icon_byte(n, first + 2) == p.b);
                assert(icon_byte(n, first + 3) == p.a);
            }
            rgba.push(p.r);
            rgba.push(p.g);
            rgba.push(p.b);
            rgba.push(p.a);
            x += 1;
        }
        assert(4 * (y * n + n) == 4 * ((y + 1) * n)) by (nonlinear_arith);
        y += 1;
    }
    assert(4 * (n * n) == 4 * n * n) by (nonlinear_arith);
    assert(rgba@ =~= icon_bytes(size as nat));
    (rgba, size, size)
}

proof fn lemma_pixel_place(n: int, x: int, y: int)
    requires
        0 <= x < n,
        0 <= y,
    ensures
        forall|c: int|
            0 <= c < 4 ==> #[trigger] icon_byte(n, 4 * (y * n + x) + c) == icon_pixel(
                n,
                x,
                y,
            ).channel(c),
{
    let p = y * n + x;
    vstd::arithmetic::div_mod::lemma_fundamental_div_mod_converse(p, n, y, x);
    assert forall|c: int| 0 <= c < 4 implies #[trigger] icon_byte(n, 4 * p + c) == icon_pixel(
        n,
        x,
        y,
    ).channel(c) by {
        assert((4 * p + c) / 4 == p && (4 * p + c) % 4 == c);
    }
}

/// The outline of the icon is the same in rows and columns.
pub proof fn law_outline_is_symmetric(size: int, x: int, y: int)
    ensures
        icon_pixel(size, x, y).a == icon_pixel(size, y, x).a,
{
    let (u, v) = (grid(size, x), grid(size, y));
    let low = int_num(0).plus(int_num(9));
    let high = int_num(0).plus(int_num(58)).minus(int_num(9));
    let du = u.minus(u.clamp(low, high));
    let dv = v.minus(v.clamp(low, high));
    lemma_square_sign(du);
    lemma_square_sign(dv);
    law_plus_commutes(du.times(du), dv.times(dv));
}

/// A colour that covers all is seen alone, and one that covers nothing is not seen.
pub proof fn law_mix_ends(base: Pixel, overlay: Pixel)
    ensures
        mixed(base, overlay, int_num(0)) == base,
        mixed(base, overlay, int_num(1)) == overlay,
{
    law_rounding_keeps_sign(0, 1, 0);
    law_rounding_keeps_sign(1, 1, 0);
    lemma_less(int_num(0), int_num(0));
    lemma_less(int_num(0), int_num(1));
    lemma_less(int_num(1), int_num(0));
    lemma_less(int_num(1), int_num(1));
    assert(unit(int_num(0)) == int_num(0));
    assert(unit(int_num(1)) == int_num(1));
    lemma_lerp_ends(base.r, overlay.r);
    lemma_lerp_ends(base.g, overlay.g);
    lemma_lerp_ends(base.b, overlay.b);
    lemma_lerp_ends(base.a, overlay.a);
}

proof fn lemma_lerp_ends(from: u8, to: u8)
    ensures
        lerp(from, to, int_num(0)) == from,
        lerp(from, to, int_num(1)) == to,
{
    let a = int_num(from as int);
    let b = int_num(to as int);
    law_negation_is_exact(from as int, 1, 0);
    law_integer_sums_are_exact(to as int, -(from as int));
    law_integer_sums_are_exact(from as int, to - from);
    law_rounding_keeps_sign(from as int, 1, 0);
    law_rounding_keeps_sign(to - from, 1, 0);
    assert(b.minus(a) == int_num(to - from));
    law_times_one(b.minus(a));
    law_zero(b.minus(a));
    law_zero(a);
    law_bytes_are_read_back(from);
    law_bytes_are_read_back(to);
}

/// The bytes of an icon are those of its pixels, row by row, four to each: red,
/// green, blue and alpha.
pub proof fn law_bytes_of_icon(size: nat, x: int, y: int)
    requires
        0 <= x < size,
        0 <= y < size,
    ensures
        icon_bytes(size).len() == 4 * size * size,
        ({
            let first = 4 * (y * size + x);
            let p = icon_pixel(size as int, x, y);
            &&& 0 <= first && first + 3 < icon_bytes(size).len()
            &&& icon_bytes(size)[first] == p.r
            &&& icon_bytes(size)[first + 1] == p.g
            &&& icon_bytes(size)[first + 2] == p.b
            &&& icon_bytes(size)[first + 3] == p.a
        }),
{
    let n = size as int;
    let first = 4 * (y * n + x);
    lemma_pixel_place(n, x, y);
    assert(0 <= y * n + x < n * n) by (nonlinear_arith)
        requires
            0 <= x < n,
            0 <= y < n,
    ;
    assert(4 * n * n == 4 * (n * n)) by (nonlinear_arith);
    assert(icon_byte(n, first + 0) == icon_pixel(n, x, y).channel(0));
    assert(icon_byte(n, first + 1) == icon_pixel(n, x, y).channel(1));
    assert(icon_byte(n, first + 2) == icon_pixel(n, x, y).channel(2));
    assert(icon_byte(n, first + 3) == icon_pixel(n, x, y).channel(3));
}

/// The size of an icon matters only to where its pixels lie on the grid: those
/// that lie on the same point are the same.
pub proof fn law_pixels_follow_the_grid(s: int, x: int, y: int, t: int, u: int, v: int)
    requires
        grid(s, x) == grid(t, u),
        grid(s, y) == grid(t, v),
    ensures
        icon_pixel(s, x, y) == icon_pixel(t, u, v),
{
}

/// An icon of twice the size has the pixels of the smaller one at every second
/// place.
pub proof fn law_icons_of_twice_the_size(size: int, x: int, y: int)
    requires
        size > 0,
    ensures
        icon_pixel(2 * size, 2 * x, 2 * y) == icon_pixel(size, x, y),
{
    lemma_grid_doubles(size, x);
    lemma_grid_doubles(size, y);
}

proof fn lemma_int_doubles(n: int)
    requires
        n != 0,
    ensures
        int_num(2 * n) == (Num { m: int_num(n).m, e: int_num(n).e + 1 }),
{
    assert(crate::binary::two_to(1) == 2 * crate::binary::two_to(0));
    assert(n * 2 == 2 * n);
    law_rounding_ignores_scale(n, 1, 1);
    law_doubling_moves_the_point(n, 1, 0);
}

proof fn lemma_grid_doubles(size: int, i: int)
    requires
        size > 0,
    ensures
        grid(2 * size, 2 * i) == grid(size, i),
{
    reveal(Num::over);
    reveal(nearest);
    let a = int_num(size);
    let b = int_num(2 * size);
    let c = int_num(58);
    law_rounding_keeps_sign(size, 1, 0);
    law_rounding_keeps_sign(58, 1, 0);
    lemma_int_doubles(size);
    let s = a.over(c);
    let t = b.over(c);
    law_doubling_moves_the_point(a.m, c.m as nat, a.e - c.e);
    assert(t.m == s.m && t.e == s.e + 1);
    if i != 0 {
        lemma_int_doubles(i);
    }
}

/// On a grid of its own size an icon has its pixels on the points of the grid.
pub proof fn law_the_natural_size(i: int)
    requires
        -0x100_0000 < i < 0x100_0000,
    ensures
        grid(58, i) == int_num(i),
{
    law_rounding_keeps_sign(58, 1, 0);
    law_rounding_keeps_sign(i, 1, 0);
    law_quotients(int_num(58));
    law_quotients(int_num(i));
}

/// What covers a point covers it neither less than not at all nor more than
/// wholly.
pub proof fn law_covers_are_limited(x: Num)
    requires
        x.normal(),
    ensures
        !unit(x).less(int_num(0)),
        !int_num(1).less(unit(x)),
{
    law_rounding_keeps_sign(0, 1, 0);
    law_rounding_keeps_sign(1, 1, 0);
    law_integers_are_ordered(1, 0);
    law_order(x, x, int_num(0), int_num(1));
}

/// A line from a point to itself covers nothing.
pub proof fn law_a_point_is_no_line(x: Num, y: Num, p: (Num, Num), width: Num)
    requires
        p.0.normal(),
        p.1.normal(),
    ensures
        segment_cover(x, y, p, p, width) == int_num(0),
{
    lemma_difference_with_itself(p.0);
    lemma_difference_with_itself(p.1);
    lemma_zero_dot();
    law_rounding_keeps_sign(1, 0x80_0000, 0);
    lemma_less(frac_num(1, 0x80_0000), Num::zero());
}

proof fn lemma_difference_with_itself(x: Num)
    requires
        x.normal(),
    ensures
        x.minus(x) == Num::zero(),
{
    law_sum_is_rounded_once(x, x.neg(), x.e);
    let p = crate::binary::two_to(0) as int;
    assert(x.m * p + (-x.m) * p == 0) by (nonlinear_arith);
    reveal(nearest);
}

proof fn lemma_zero_dot()
    ensures
        dot(Num::zero(), Num::zero(), Num::zero(), Num::zero()) == Num::zero(),
{
    law_zero(Num::zero());
}

/// Nine and three quarters, the reach of the outer corners.
proof fn lemma_reach()
    ensures
        int_num(9).plus(frac_num(3, 4)) == (Num { m: 0x9C_0000, e: -20 }),
{
    assert(int_num(9) == (Num { m: 0x90_0000, e: -20 })) by {
        reveal(nearest);
        reveal_with_fuel(crate::binary::rounded, 22);
    }
    assert(frac_num(3, 4) == (Num { m: 0xC0_0000, e: -24 })) by {
        reveal(nearest);
        reveal_with_fuel(crate::binary::rounded, 26);
    }
    law_sum_is_rounded_once(int_num(9), frac_num(3, 4), -24);
    reveal_with_fuel(crate::binary::two_to, 6);
    reveal(nearest);
    reveal_with_fuel(crate::binary::rounded, 6);
}

/// Between the corners of its outline an icon of any size is opaque.
pub proof fn law_the_middle_is_opaque(size: int, x: int, y: int)
    requires
        grid(size, x).normal(),
        grid(size, y).normal(),
        !grid(size, x).less(int_num(9)) && !int_num(49).less(grid(size, x)),
        !grid(size, y).less(int_num(9)) && !int_num(49).less(grid(size, y)),
    ensures
        icon_pixel(size, x, y).a == 255,
{
    let (u, v) = (grid(size, x), grid(size, y));
    law_integer_sums_are_exact(0, 9);
    law_integer_sums_are_exact(0, 58);
    law_negation_is_exact(9, 1, 0);
    law_integer_sums_are_exact(58, -9);
    lemma_difference_with_itself(u);
    lemma_difference_with_itself(v);
    lemma_zero_dot();
    assert(Num::zero().root() == Num::zero()) by {
        reveal(Num::root);
    }
    lemma_reach();
    let reach = Num { m: 0x9C_0000, e: -20 };
    assert(reach.minus(Num::zero()) == reach) by {
        law_zero(reach);
        assert(Num::zero().neg() == Num::zero());
    }
    law_rounding_keeps_sign(0, 1, 0);
    law_rounding_keeps_sign(1, 1, 0);
    lemma_less(reach, int_num(0));
    law_integers_are_exact(1);
    assert(int_num(1) == (Num { m: 0x80_0000, e: -23 })) by {
        reveal(nearest);
        reveal_with_fuel(crate::binary::rounded, 25);
    }
    lemma_less(int_num(1), reach);
    assert(unit(reach) == int_num(1));
    lemma_less(int_num(0), int_num(1));
    law_integer_products(1, 255);
    law_bytes_are_read_back(255);
}

/// The corner of an icon of any size is wholly transparent.
pub proof fn law_the_corner_is_transparent(size: int)
    ensures
        icon_pixel(size, 0, 0) == (Pixel { r: 0, g: 0, b: 0, a: 0 }),
{
    let zero = Num::zero();
    assert(grid(size, 0) == zero) by {
        reveal(Num::over);
        reveal(nearest);
    }
    law_zero(zero);
    law_integer_sums_are_exact(0, 9);
    law_integer_sums_are_exact(0, 58);
    law_negation_is_exact(9, 1, 0);
    law_integer_sums_are_exact(58, -9);
    law_integer_sums_are_exact(0, -9);
    law_integers_are_ordered(0, 9);
    assert(zero == int_num(0));
    let d = zero.minus(zero.clamp(int_num(9), int_num(49)));
    assert(d == int_num(-9));
    law_integer_products(-9, -9);
    law_integer_sums_are_exact(81, 81);
    assert(dot(d, d, d, d) == int_num(162));
    let distance = int_num(162).root();
    lemma_far_corner();
    lemma_reach();
    let reach = Num { m: 0x9C_0000, e: -20 };
    let gap = reach.minus(distance);
    law_sum_is_rounded_once(reach, distance.neg(), -20);
    law_rounding_keeps_sign(reach.in_units(-20) + distance.neg().in_units(-20), 1, -20);
    let one = crate::binary::two_to(0) as int;
    let far = distance.m;
    assert(0x9C_0000 * one + (-far) * one == 0x9C_0000 - far) by (nonlinear_arith)
        requires
            one == 1,
    ;
    assert(gap.m < 0 && gap.normal());
    law_rounding_keeps_sign(0, 1, 0);
    law_rounding_keeps_sign(1, 1, 0);
    lemma_less(gap, int_num(0));
    assert(unit(gap) == int_num(0));
    lemma_less(int_num(0), int_num(0));
}

/// The corner of the grid is farther from the middle of its rounding than the
/// outline reaches.
proof fn lemma_far_corner()
    ensures
        int_num(162).root().e == -20,
        int_num(162).root().normal(),
        int_num(162).root().m > 0x9C_0000,
{
    assert(int_num(162) == (Num { m: 0xA2_0000, e: -16 })) by {
        reveal(nearest);
        reveal_with_fuel(crate::binary::rounded, 18);
    }
    reveal(Num::root);
    let n: nat = 178120883699712;
    assert(0xA2_0000 * 0x100_0000 == n);
    assert(is_nearest_root(13346194, n)) by {
        assert((2 * 13346194 - 1) * (2 * 13346194 - 1) <= 4 * 178120883699712 < (2 * 13346194 + 1)
            * (2 * 13346194 + 1)) by (nonlinear_arith);
    }
    let g = nearest_root(n);
    assert(g > 0 && is_nearest_root(g, n));
    assert(0x9C_0000 < g) by (nonlinear_arith)
        requires
            4 * 178120883699712 < (2 * g + 1) * (2 * g + 1),
    ;
    assert(g < 0x100_0000) by (nonlinear_arith)
        requires
            (2 * g - 1) * (2 * g - 1) <= 4 * 178120883699712,
            g > 0,
    ;
}

} // verus!
