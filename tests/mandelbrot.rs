//! The full pipeline on real points of the complex plane: the library's
//! escape-time loop, sextant choice and two-pass render, with the floating-point
//! steps written out here.

use fractal_rs::color::sextant_channels;
use fractal_rs::escape::escape_time;
use fractal_rs::pixel::PixelFormat;
use fractal_rs::render::render;
use num::complex::Complex64;

fn smooth_value(c: Complex64, cap: u16) -> f64 {
    let (iter, z) = escape_time(
        Complex64::new(0.0, 0.0),
        |z: Complex64| z * z + c,
        |z: Complex64| z.norm_sqr() <= 4.0,
        cap,
    );
    if iter == cap {
        return iter as f64;
    }
    iter as f64 + 1.0 - z.norm_sqr().sqrt().log2().log10()
}

fn hsl(hue: f32, sat: f32, lum: f32) -> (u8, u8, u8) {
    let c = (1.0 - (2.0 * lum - 1.0).abs()) * sat;
    let x = c * (1.0 - ((hue / 60.0) % 2.0 - 1.0).abs());
    let m = lum - c / 2.0;
    let p: (f32, f32, f32) = sextant_channels(hue as i32, c, x, 0.0);
    (
        ((p.0 + m) * 255.0) as u8,
        ((p.1 + m) * 255.0) as u8,
        ((p.2 + m) * 255.0) as u8,
    )
}

fn mandelbrot(width: u32, height: u32, center: Complex64, zoom: f64, cap: u16) -> Vec<u8> {
    let scale = 0.003333333 / zoom;
    let half_w = width as f64 / 2.0 * scale;
    let half_h = height as f64 / 2.0 * scale;
    let top_left = Complex64::new(center.re - half_w, center.im + half_h);
    let x_step = 2.0 * half_w / width as f64;
    let y_step = 2.0 * half_h / height as f64;
    render(
        width,
        height,
        cap,
        PixelFormat::RGBA8,
        |x: u32, y: u32| {
            let c = Complex64::new(
                top_left.re + x as f64 * x_step,
                top_left.im - y as f64 * y_step,
            );
            let m = smooth_value(c, cap);
            (m, m.floor() as u16, m.ceil() as u16)
        },
        |previous: f32, k: usize, total: usize| previous + k as f32 / total as f32,
        0.0,
        |m: f64, lo: f32, hi: f32| {
            let t = m % 1.0;
            let pos = (lo as f64 * (1.0 - t) + hi as f64 * t) as f32;
            hsl(360.0 - pos * 360.0, 0.9, 0.5)
        },
    )
}

#[test]
fn smooth_value_of_interior_point_is_cap() {
    assert_eq!(smooth_value(Complex64::new(0.0, 0.0), 100), 100.0);
    assert_eq!(smooth_value(Complex64::new(-1.0, 0.0), 50), 50.0);
}

#[test]
fn smooth_value_of_exterior_point_lies_below_cap() {
    let m = smooth_value(Complex64::new(1.0, 1.0), 100);
    assert!(m >= 0.0 && m < 100.0);
    // c = 1 + i: |z1|^2 = 2, |z2|^2 = 10 > 4, so two steps were taken
    let expected = 3.0 - (10f64.sqrt().log2().log10());
    assert!((m - expected).abs() < 1e-12);
}

#[test]
fn hsl_of_named_colors() {
    assert_eq!(hsl(0.0, 1.0, 0.5), (255, 0, 0));
    assert_eq!(hsl(120.0, 1.0, 0.5), (0, 255, 0));
    assert_eq!(hsl(60.0, 1.0, 0.5), (255, 255, 0));
    assert_eq!(hsl(240.0, 0.75, 0.75), (143, 143, 239));
}

#[test]
fn test_render() {
    let image = mandelbrot(100, 100, Complex64::new(-0.0, 0.0), 0.1, 100);
    assert_eq!(40_000, image.len(), "expected len 40_000");
    // in this image the center pixels should be black
    for i in (20_000..20040).step_by(4) {
        assert_eq!(0, image[i], "expected 0 for B");
        assert_eq!(0, image[i + 1], "expected 0 for G");
        assert_eq!(0, image[i + 2], "expected 0 for R");
        assert_eq!(255, image[i + 3]);
    }
    // upper left should be green-blue
    assert!(image[397] > 0, "G should be > 0");
    assert!(image[396] < image[397], "B should be less than G");
    assert!(image[398] < image[397], "R should be less than G");
}
