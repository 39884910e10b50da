use mandelbrot::encode::encode_png;
use mandelbrot::parse::{parse_complex, parse_pair, parse_rat, parse_usize};
use mandelbrot::plane::{pixel_to_point, Complex};
use mandelbrot::rat::Rat;
use mandelbrot::render::{intensity, pixel_count, pixel_for_index, render};

#[test]
fn test_parse_pair() {
    assert_eq!(parse_pair("", ','), None);
    assert_eq!(parse_pair("12x14", 'x'), Some((12, 14)));
    let c = parse_complex("1.5,2").expect("a real pair must parse");
    assert!(c.re.eqv(&Rat::new(3, 2)));
    assert!(c.im.eqv(&Rat::new(2, 1)));
}

#[test]
fn test_parse_pair_malformed() {
    assert_eq!(parse_pair("", 'x'), None);
    assert_eq!(parse_pair("12x", 'x'), None);
    assert_eq!(parse_pair("x14", 'x'), None);
    assert_eq!(parse_pair("12,14", 'x'), None);
    assert_eq!(parse_pair("3x4x5", 'x'), None);
    assert_eq!(parse_pair("-3x4", 'x'), None);
}

#[test]
fn test_parse_pair_limit() {
    assert_eq!(parse_pair("+12x14", 'x'), Some((12, 14)));
    assert_eq!(parse_pair("2000000000x1", 'x'), Some((2000000000, 1)));
    assert_eq!(parse_pair("007x00014", 'x'), Some((7, 14)));
    assert_eq!(
        parse_pair("18446744073709551615x1", 'x'),
        Some((usize::MAX, 1))
    );
    assert_eq!(parse_pair("18446744073709551616x1", 'x'), None);
    assert_eq!(parse_pair("++12x14", 'x'), None);
}

#[test]
fn test_parse_usize() {
    assert_eq!(parse_usize(""), None);
    assert_eq!(parse_usize("12a"), None);
    assert_eq!(parse_usize("0"), Some(0));
    assert_eq!(parse_usize("255"), Some(255));
}

#[test]
fn test_parse_rat() {
    let v = parse_rat("-1.2").expect("a signed decimal must parse");
    assert_eq!(v.num, -12);
    assert_eq!(v.den, 10);
    let w = parse_rat("2").expect("an integer must parse");
    assert_eq!(w.num, 2);
    assert_eq!(w.den, 1);
    let x = parse_rat("1.").expect("a trailing dot must parse");
    assert_eq!(x.num, 1);
    assert_eq!(x.den, 1);
    let y = parse_rat(".5").expect("a leading dot must parse");
    assert_eq!(y.num, 5);
    assert_eq!(y.den, 10);
    let z = parse_rat("+1.5").expect("a leading plus must parse");
    assert_eq!(z.num, 15);
    assert_eq!(z.den, 10);
    assert_eq!(parse_rat(""), None);
    assert_eq!(parse_rat("-"), None);
    assert_eq!(parse_rat("."), None);
    assert_eq!(parse_rat("-."), None);
    assert_eq!(parse_rat("1.5.2"), None);
    assert_eq!(parse_rat("1e1"), None);
}

#[test]
fn test_parse_complex() {
    let c = parse_complex("12,13.5").expect("a coordinate pair must parse");
    assert!(c.re.eqv(&Rat::new(12, 1)));
    assert!(c.im.eqv(&Rat::new(27, 2)));
    let d = parse_complex(".5,1").expect("a bare fraction must parse");
    assert!(d.re.eqv(&Rat::new(1, 2)));
    assert!(d.im.eqv(&Rat::new(1, 1)));
    assert_eq!(parse_complex("12"), None);
    assert_eq!(parse_complex(",5"), None);
}

#[test]
fn test_pixel_to_point() {
    let bounds = (200usize, 100usize);
    let ul = Complex { re: Rat::new(0, 1), im: Rat::new(1, 1) };
    let lr = Complex { re: Rat::new(1, 1), im: Rat::new(0, 1) };
    let p = pixel_to_point(bounds, (0, 0), ul, lr);
    assert!(p.re.eqv(&Rat::new(0, 1)));
    assert!(p.im.eqv(&Rat::new(1, 1)));

    let ul2 = Complex { re: Rat::new(1, 1), im: Rat::new(2, 1) };
    let lr2 = Complex { re: Rat::new(2, 1), im: Rat::new(1, 1) };
    let q = pixel_to_point(bounds, (0, 0), ul2, lr2);
    assert!(q.re.eqv(&Rat::new(1, 1)));
    assert!(q.im.eqv(&Rat::new(2, 1)));

    let r = pixel_to_point(bounds, (50, 50), ul2, lr2);
    assert!(r.re.eqv(&Rat::new(5, 4)));
    assert!(r.im.eqv(&Rat::new(3, 2)));
}

#[test]
fn test_transposed_mapping() {
    // Buffer position row * width + col samples the plane at pixel
    // (row, col): the row interpolates the real axis.
    let bounds = (3usize, 2usize);
    let ul = Complex { re: Rat::new(0, 1), im: Rat::new(2, 1) };
    let lr = Complex { re: Rat::new(3, 1), im: Rat::new(0, 1) };
    let index = 1 * 3 + 2;
    let pixel = pixel_for_index(bounds, index);
    assert_eq!(pixel, (1, 2));
    let p = pixel_to_point(bounds, pixel, ul, lr);
    assert!(p.re.eqv(&Rat::new(1, 1)));
    assert!(p.im.eqv(&Rat::new(0, 1)));
}

#[test]
fn test_intensity() {
    assert_eq!(intensity(Some(0)), 255);
    assert_eq!(intensity(Some(5)), 250);
    assert_eq!(intensity(Some(254)), 1);
    assert_eq!(intensity(None), 0);
}

#[test]
fn test_render_small() {
    let bounds = (3usize, 1usize);
    let escapes = vec![None, Some(0), Some(3)];
    let mut buffer = vec![9u8; 3];
    render(&mut buffer, bounds, &escapes);
    assert_eq!(buffer, vec![0u8, 255, 252]);
    for b in &buffer {
        assert!(*b == 0 || (1..=255).contains(b));
    }
}

#[test]
fn test_render_idempotent() {
    let bounds = (2usize, 2usize);
    let escapes = vec![Some(1), None, Some(7), Some(254)];
    let mut first = vec![0u8; 4];
    let mut second = vec![77u8; 4];
    render(&mut first, bounds, &escapes);
    render(&mut second, bounds, &escapes);
    assert_eq!(first, second);
}

#[test]
fn test_pixel_for_index() {
    assert_eq!(pixel_for_index((4, 3), 0), (0, 0));
    assert_eq!(pixel_for_index((4, 3), 7), (1, 3));
    assert_eq!(pixel_for_index((4, 3), 11), (2, 3));
}

#[test]
fn test_pixel_count() {
    assert_eq!(pixel_count((4, 3)), Some(12));
    assert_eq!(pixel_count((0, 9)), Some(0));
    assert_eq!(pixel_count((usize::MAX, 2)), None);
}

#[test]
fn test_pipeline_idempotent() {
    // Driving the whole library twice over the same inputs gives
    // byte-identical PNG output.
    let bounds = (8usize, 5usize);
    let ul = Complex { re: Rat::new(-2, 1), im: Rat::new(1, 1) };
    let lr = Complex { re: Rat::new(1, 1), im: Rat::new(-1, 1) };
    let count = pixel_count(bounds).unwrap();
    let mut outputs = Vec::new();
    for _ in 0..2 {
        let mut escapes = Vec::with_capacity(count);
        for index in 0..count {
            let pixel = pixel_for_index(bounds, index);
            let point = pixel_to_point(bounds, pixel, ul, lr);
            // a stand-in escape rule that only reads the exact point
            let fast = point.re.eqv(&Rat::new(0, 1)) || point.im.eqv(&Rat::new(0, 1));
            escapes.push(if fast { Some(0) } else { None });
        }
        let mut buffer = vec![0u8; count];
        render(&mut buffer, bounds, &escapes);
        outputs.push(encode_png(&buffer, bounds).expect("the raster must encode"));
    }
    assert_eq!(outputs[0], outputs[1]);
}

#[test]
fn test_encode_png() {
    let pixels = vec![0u8, 128, 255, 64];
    let bytes = encode_png(&pixels, (2, 2)).expect("a tiny image must encode");
    assert_eq!(&bytes[0..8], &[137u8, 80, 78, 71, 13, 10, 26, 10]);
    assert_ne!(bytes, pixels);
}

#[test]
fn test_encode_png_rejects() {
    let pixels = vec![0u8, 1, 2];
    assert!(encode_png(&pixels, (2, 2)).is_none());
    assert!(encode_png(&pixels, (0, 3)).is_none());
    assert!(encode_png(&pixels, (3, 0)).is_none());
}
