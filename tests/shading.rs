use raytracer::color::{Color, COLOR_ONE};
use raytracer::onb::{Onb, AXIS_ONE};
use raytracer::pdf::{CosinePDF, SpherePDF};
use raytracer::perlin::{Perlin, GRADIENT_ONE, POINT_COUNT};
use raytracer::rtw_stb_image::RTWImage;
use raytracer::texture::{CheckerTexture, ImageTexture, SolidColor, Texture, UV_ONE};
use raytracer::vec3::{dot, Vec3};

#[test]
fn write_color_black_and_white() {
    assert_eq!(Color::black().write_color(), [0, 0, 0]);
    assert_eq!(Color::white().write_color(), [255, 255, 255]);
}

#[test]
fn write_color_gamma_and_clamp() {
    // A quarter of full intensity: square root one half, times 256.
    let c = Color::new(COLOR_ONE / 4, -5, 40 * COLOR_ONE);
    assert_eq!(c.write_color(), [128, 0, 255]);
    let tiny = Color::new(1, 3, 4);
    assert_eq!(tiny.write_color(), [1, 1, 2]);
}

#[test]
fn onb_axes_are_orthonormal() {
    let one = AXIS_ONE as i128;
    for w in [Vec3::new(0, 0, 5), Vec3::new(7, 1, -2), Vec3::new(-3, 9, 4), Vec3::new(100, 3, 1)] {
        let f = Onb::new(&w);
        // Rounding to fixed point leaves each product within a few units.
        assert!(dot(&f.u(), &f.v()).abs() <= 3 * one);
        assert!(dot(&f.v(), &f.w()).abs() <= 3 * one);
        assert!(dot(&f.u(), &f.w()).abs() <= 3 * one);
        for axis in [f.u(), f.v(), f.w()] {
            assert!((dot(&axis, &axis) - one * one).abs() <= 6 * one);
        }
        assert_eq!(f.index(2), f.w());
        // w points along the direction it was built on.
        assert!(dot(&f.w(), &w) > 0);
    }
    let f = Onb::new(&Vec3::new(0, 0, 2));
    assert_eq!(f.w(), Vec3::new(0, 0, AXIS_ONE));
    assert_eq!(f.v(), Vec3::new(0, AXIS_ONE, 0));
    assert_eq!(f.u(), Vec3::new(-AXIS_ONE, 0, 0));
    assert_eq!(f.local(&Vec3::new(1, 2, 3)), Vec3::new(-1, 2, 3));
}

#[test]
fn cosine_pdf_frame_follows_normal() {
    let pdf = CosinePDF::new(&Vec3::new(10, 0, 0));
    assert_eq!(pdf.uvw.w(), Vec3::new(AXIS_ONE, 0, 0));
    assert_eq!(pdf.uvw.v(), Vec3::new(0, 0, AXIS_ONE));
    let _ = SpherePDF::_new();
}

#[test]
fn perlin_permutations() {
    let p = Perlin::new();
    assert_eq!(p.rand_vec.len(), POINT_COUNT);
    for perm in [&p.perm_x, &p.perm_y, &p.perm_z] {
        let mut seen = vec![false; POINT_COUNT];
        for &k in perm.iter() {
            assert!(!seen[k as usize]);
            seen[k as usize] = true;
        }
    }
    for g in p.rand_vec.iter() {
        for c in [g.x, g.y, g.z] {
            assert!(-GRADIENT_ONE <= c && c < GRADIENT_ONE);
        }
    }
    // A shuffle that left every entry in place would be one chance in 254!.
    assert!(p.perm_x.iter().enumerate().any(|(i, &k)| i as u32 != k));
    let q = Perlin::perlin_generate_perm();
    assert_eq!(q.len(), POINT_COUNT);
    assert_eq!(q[POINT_COUNT - 1], (POINT_COUNT - 1) as u32);
}

#[test]
fn solid_and_checker_textures() {
    let red = Color::new(COLOR_ONE, 0, 0);
    let s = SolidColor::new(&red);
    assert_eq!(Texture::Solid(s).value(0, 0, &Vec3::new(1, 2, 3)), red);
    let blue = Color::new(0, 0, COLOR_ONE);
    let c = Texture::Checker(CheckerTexture::new_color(10, &red, &blue));
    assert_eq!(c.value(0, 0, &Vec3::new(1, 1, 1)), red);
    assert_eq!(c.value(0, 0, &Vec3::new(11, 1, 1)), blue);
    assert_eq!(c.value(0, 0, &Vec3::new(-1, 1, 1)), blue);
    assert_eq!(c.value(0, 0, &Vec3::new(-10, -10, 1)), red);
    assert_eq!(SolidColor::_new_rgb(1, 2, 3).albedo, Color::new(1, 2, 3));
}

#[test]
fn image_pixels_and_fallbacks() {
    let data = vec![10, 20, 30, 40, 50, 60, 70, 80, 90, 255, 0, 128];
    let img = RTWImage::from_pixels(2, 2, data);
    assert_eq!((img.width(), img.height()), (2, 2));
    assert_eq!(img.pixel_data(1, 0), [40, 50, 60]);
    assert_eq!(img.pixel_data(7, 9), [255, 0, 128]);
    assert_eq!(RTWImage::clamp(5, 0, 3), 2);
    assert_eq!(RTWImage::clamp(1, 2, 3), 2);
    let bad = RTWImage::from_pixels(3, 3, vec![1, 2, 3]);
    assert_eq!(bad.height(), 0);
    assert_eq!(bad.pixel_data(0, 0), [255, 0, 255]);

    let tex = Texture::Image(ImageTexture::new(img));
    // u = 0, v = 1: the top-left pixel.
    assert_eq!(
        tex.value(0, UV_ONE, &Vec3::new(0, 0, 0)),
        Color::new(10 * 10 * COLOR_ONE / 65025, 20 * 20 * COLOR_ONE / 65025, 30 * 30 * COLOR_ONE / 65025)
    );
    // u = 1, v = 0: the bottom-right pixel.
    assert_eq!(tex.value(UV_ONE, 0, &Vec3::new(0, 0, 0)), Color::new(COLOR_ONE, 0, 128 * 128 * COLOR_ONE / 65025));
    let missing = Texture::Image(ImageTexture::new(RTWImage::empty()));
    assert_eq!(missing.value(5, 5, &Vec3::new(0, 0, 0)), Color::new(0, COLOR_ONE, COLOR_ONE));
}

#[test]
fn edge_detection_marks_strong_gradients() {
    let mut data = Vec::new();
    for _y in 0..3 {
        for x in 0..4 {
            let g = if x == 0 { 0 } else { 255 };
            data.extend_from_slice(&[g, g, g]);
        }
    }
    let img = RTWImage::from_pixels(4, 3, data);
    let edges = raytracer::edge::edge_detection(&img);
    assert_eq!((edges.width(), edges.height()), (2, 1));
    assert_eq!(edges.data, vec![0, 0, 0, 255, 255, 255]);
}
