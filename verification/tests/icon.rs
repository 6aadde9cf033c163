//! The icon, held against the same drawing in single-precision arithmetic.
use wsl_controller::binary::Binary;
use wsl_controller::icon::icon_pixels;

fn rect(x: f32, y: f32, corner: f32, side: f32, radius: f32) -> f32 {
    let near = corner + radius;
    let far = corner + side - radius;
    let dx = x - x.clamp(near, far);
    let dy = y - y.clamp(near, far);
    (radius + 0.75 - (dx * dx + dy * dy).sqrt()).clamp(0.0, 1.0)
}

fn line(x: f32, y: f32, start: (f32, f32), end: (f32, f32), width: f32) -> f32 {
    let vx = end.0 - start.0;
    let vy = end.1 - start.1;
    let len_sq = vx * vx + vy * vy;
    if len_sq <= f32::EPSILON {
        return 0.0;
    }
    let t = (((x - start.0) * vx + (y - start.1) * vy) / len_sq).clamp(0.0, 1.0);
    let px = start.0 + t * vx;
    let py = start.1 + t * vy;
    let distance = ((x - px).powi(2) + (y - py).powi(2)).sqrt();
    (width / 2.0 + 0.65 - distance).clamp(0.0, 1.0).min(1.0)
}

fn blend(base: [u8; 4], over: [u8; 4], alpha: f32) -> [u8; 4] {
    let a = alpha.clamp(0.0, 1.0);
    let mut out = [0u8; 4];
    for i in 0..4 {
        out[i] = (base[i] as f32 + (over[i] as f32 - base[i] as f32) * a).round() as u8;
    }
    out
}

fn drawing(size: u32) -> Vec<u8> {
    let mut rgba = vec![0u8; (size * size * 4) as usize];
    let scale = size as f32 / 58.0;
    for y in 0..size {
        for x in 0..size {
            let idx = ((y * size + x) * 4) as usize;
            let xf = x as f32 / scale;
            let yf = y as f32 / scale;
            let outer = rect(xf, yf, 0.0, 58.0, 9.0);
            if outer <= 0.0 {
                continue;
            }
            let inner = rect(xf, yf, 6.0, 46.0, 5.0);
            let mut color = [39, 114, 159, 255];
            if inner > 0.0 {
                color = blend(color, [16, 18, 24, 255], inner);
            }
            let corner = (27.0, 29.0);
            let prompt = line(xf, yf, (17.0, 20.0), corner, 2.7)
                .max(line(xf, yf, corner, (17.0, 38.0), 2.7));
            if prompt > 0.0 {
                color = blend(color, [95, 211, 167, 255], prompt);
            }
            let cursor = line(xf, yf, (33.0, 40.0), (45.0, 40.0), 2.9);
            if cursor > 0.0 {
                color = blend(color, [230, 238, 245, 255], cursor);
            }
            color[3] = (outer * 255.0).round() as u8;
            rgba[idx..idx + 4].copy_from_slice(&color);
        }
    }
    rgba
}

fn assert_same(size: u32) {
    let (rgba, width, height) = icon_pixels(size);
    assert_eq!(width, size);
    assert_eq!(height, size);
    assert_eq!(rgba.len(), (size * size * 4) as usize);
    assert!(rgba == drawing(size), "size {size}");
}

#[test]
fn small_icons_are_drawn_as_in_single_precision() {
    for size in 0..48 {
        assert_same(size);
    }
}

#[test]
fn file_icons_are_drawn_as_in_single_precision() {
    for size in [48, 58, 64, 116, 128] {
        assert_same(size);
    }
}

#[test]
fn the_largest_file_icon_is_drawn_as_in_single_precision() {
    assert_same(256);
}

#[test]
fn an_icon_of_one_pixel_has_an_exact_colour() {
    // The corner of the grid lies outside the round corner of the frame.
    assert_eq!(icon_pixels(1), (vec![0, 0, 0, 0], 1, 1));
    // At two by two, the last pixel is the centre of the grid: the back of the screen.
    let (rgba, _, _) = icon_pixels(2);
    assert_eq!(&rgba[12..16], &drawing(2)[12..16]);
    assert_eq!(rgba[15], 255);
}

#[test]
fn an_icon_without_pixels_is_empty() {
    assert_eq!(icon_pixels(0), (vec![], 0, 0));
}

#[test]
fn the_outline_is_symmetric() {
    let n = 32usize;
    let (rgba, _, _) = icon_pixels(n as u32);
    for y in 0..n {
        for x in 0..n {
            assert_eq!(rgba[4 * (y * n + x) + 3], rgba[4 * (x * n + y) + 3]);
        }
    }
}

#[test]
fn numbers_are_rounded_to_the_nearest_byte() {
    assert_eq!(Binary::ratio(1, 2).to_byte(), 1);
    assert_eq!(Binary::ratio(5, 2).to_byte(), 3);
    assert_eq!(Binary::ratio(249, 100).to_byte(), 2);
    assert_eq!(Binary::integer(-7).to_byte(), 0);
    assert_eq!(Binary::integer(1000).to_byte(), 255);
    assert_eq!(Binary::integer(100_000_000).to_byte(), 255);
    assert_eq!(Binary::ratio(1, 1_000_000_000).to_byte(), 0);
}

#[test]
fn arithmetic_rounds_to_24_bits() {
    let big = Binary::integer(0x100_0000);
    let one = Binary::integer(1);
    // 2^24 + 1 lies halfway, and goes to the even 2^24.
    assert_eq!(big.plus(one), big);
    assert_eq!(big.plus(Binary::integer(2)).minus(big), Binary::integer(2));
    assert_eq!(big.plus(Binary::integer(3)).minus(big), Binary::integer(4));
    // A far smaller number is lost.
    let tiny = Binary::ratio(1, 4_000_000_000).times(Binary::ratio(1, 4_000_000_000));
    assert_eq!(big.times(big).plus(tiny), big.times(big));
    assert_eq!(tiny.minus(big.times(big)), Binary::zero().minus(big.times(big)));
    assert_eq!(Binary::integer(9).over(Binary::integer(-3)), Binary::integer(-3));
    assert_eq!(Binary::integer(169).root(), Binary::integer(13));
    assert_eq!(Binary::zero().root(), Binary::zero());
    assert_eq!(Binary::ratio(1, 4).root(), Binary::ratio(1, 2));
    assert!(Binary::integer(-2).less(Binary::integer(-1)));
    assert!(!Binary::integer(3).less(Binary::integer(3)));
    assert!(Binary::integer(-1).less(Binary::zero()));
    assert_eq!(Binary::integer(5).max(Binary::integer(7)), Binary::integer(7));
    assert_eq!(one.clamp(Binary::integer(2), Binary::integer(4)), Binary::integer(2));
}
