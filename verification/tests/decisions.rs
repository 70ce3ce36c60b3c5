use pathetic::bounce::{
    leaves_medium, probability, proceed, refraction, roulette, side, terms, Branch, Impact,
    Refraction, Terms,
};
use pathetic::render::{assemble, extent, pixel_count, pixel_rng, pixel_seed, position};
use pathetic::shapes::facing;
use pathetic::things::{in_unit_ball, nearest_hit};
use pathetic::tone::{pixel, quantize};
use pathetic::{Color, Material, Point, Scalar};
use rand_xoshiro::rand_core::{RngCore, SeedableRng};
use rand_xoshiro::Xoshiro256Plus;

fn s(v: f32) -> Scalar {
    Scalar::from_bits(v.to_bits())
}

fn f(v: Scalar) -> f32 {
    f32::from_bits(v.to_bits())
}

fn samples() -> Vec<f32> {
    vec![
        f32::NEG_INFINITY,
        f32::MIN,
        -3.5,
        -1.0,
        -f32::MIN_POSITIVE,
        -f32::from_bits(1),
        -0.0,
        0.0,
        f32::from_bits(1),
        f32::from_bits(0x007f_ffff),
        f32::MIN_POSITIVE,
        0.25,
        0.99999994,
        1.0,
        1.0000001,
        1.5,
        2.0,
        255.0,
        f32::MAX,
        f32::INFINITY,
        f32::NAN,
        -f32::NAN,
    ]
}

#[test]
fn scalar_order_agrees_with_hardware() {
    for &a in samples().iter() {
        for &b in samples().iter() {
            assert_eq!(s(a).lt(s(b)), a < b, "{} < {}", a, b);
            assert_eq!(s(a).le(s(b)), a <= b, "{} <= {}", a, b);
        }
    }
}

#[test]
fn scalar_signs_agree_with_hardware() {
    for &a in samples().iter() {
        assert_eq!(s(a).is_positive(), a > 0.0, "{}", a);
        assert_eq!(s(a).is_negative(), a < 0.0, "{}", a);
        assert_eq!(s(a).is_nan(), a.is_nan(), "{}", a);
        assert_eq!(s(a).is_finite(), a.is_finite(), "{}", a);
        assert_eq!(s(a).neg().to_bits(), (-a).to_bits(), "{}", a);
        assert_eq!(s(a).abs().to_bits(), a.abs().to_bits(), "{}", a);
    }
    assert_eq!(Scalar::zero().to_bits(), 0.0f32.to_bits());
}

#[test]
fn scalar_ranges_include_their_ends() {
    for &a in samples().iter() {
        assert_eq!(s(a).within(s(0.0), s(2.0)), (0.0..=2.0).contains(&a), "{}", a);
    }
    assert!(s(0.0).within(s(0.0), s(2.0)));
    assert!(s(-0.0).within(s(0.0), s(2.0)));
    assert!(s(2.0).within(s(0.0), s(2.0)));
    assert!(!s(2.0000002).within(s(0.0), s(2.0)));
    assert!(!s(1.0).within(s(2.0), s(0.0)));
    assert!(!s(1.0).within(s(0.0), s(f32::NAN)));
}

#[test]
fn point_basics() {
    let p = Point::new(s(1.0), s(2.0), s(3.0));

    assert_eq!(f(p.get_x()), 1.0);
    assert_eq!(f(p.get_y()), 2.0);
    assert_eq!(f(p.get_z()), 3.0);
}

#[test]
fn point_setters() {
    let mut p = Point::new(s(1.0), s(2.0), s(3.0));
    p.set_x(s(4.0));
    assert_eq!(p, Point::new(s(4.0), s(2.0), s(3.0)));
    p.set_y(s(5.0));
    assert_eq!(p, Point::new(s(4.0), s(5.0), s(3.0)));
    p.set_z(s(6.0));
    assert_eq!(p, Point::new(s(4.0), s(5.0), s(6.0)));
}

#[test]
fn color_getters() {
    let c = Color::new(s(1.0), s(2.0), s(3.0));

    assert_eq!(f(c.get_r()), 1.0);
    assert_eq!(f(c.get_g()), 2.0);
    assert_eq!(f(c.get_b()), 3.0);
}

#[test]
fn material_keeps_its_coefficients() {
    let c = Color::new(s(0.1), s(0.2), s(0.3));
    let m = Material::new(s(1.0), s(2.0), s(3.0), s(4.0), s(5.0), c);
    assert_eq!(f(m.specularity), 1.0);
    assert_eq!(f(m.hardness), 2.0);
    assert_eq!(f(m.diffusion), 3.0);
    assert_eq!(f(m.refraction), 4.0);
    assert_eq!(f(m.emittance), 5.0);
    assert_eq!(m.color, c);
}

fn orthogonal(x: f32, y: f32, z: f32) -> (f32, f32, f32) {
    let o = Point::new(s(x), s(y), s(z)).orthogonal();
    (f(o.x), f(o.y), f(o.z))
}

#[test]
fn orthogonal_zeroes_the_smallest_component() {
    assert_eq!(orthogonal(1.0, 2.0, 3.0), (0.0, -3.0, 2.0));
    assert_eq!(orthogonal(2.0, 1.0, 3.0), (-3.0, 0.0, 2.0));
    assert_eq!(orthogonal(2.0, 3.0, 1.0), (-3.0, 2.0, 0.0));
    assert_eq!(orthogonal(-1.0, 2.0, -3.0), (0.0, 3.0, 2.0));
    assert_eq!(orthogonal(5.0, -0.5, 4.0), (-4.0, 0.0, 5.0));
    // among equals the earliest component goes
    assert_eq!(orthogonal(1.0, 1.0, 1.0), (0.0, -1.0, 1.0));
    assert_eq!(orthogonal(2.0, 1.0, -1.0), (1.0, 0.0, 2.0));
    assert_eq!(orthogonal(1.0, 0.0, 0.0), (-0.0, 0.0, 1.0));
    assert_eq!(orthogonal(0.0, 0.0, -5.0), (0.0, 5.0, 0.0));
}

#[test]
fn orthogonal_has_zero_dot_product() {
    let cases: [(f32, f32, f32); 6] = [
        (1.0, 0.0, 0.0),
        (0.0, 0.5, 0.3),
        (1.0, 0.5, 0.0),
        (1.0, 0.5, 5.0),
        (-0.0, -0.0, -5.0),
        (-7.25, 3.5, -0.125),
    ];
    for &(x, y, z) in cases.iter() {
        let (a, b, c) = orthogonal(x, y, z);
        assert_eq!(x * a + y * b + z * c, 0.0);
        assert!(a != 0.0 || b != 0.0 || c != 0.0);
    }
}

#[test]
fn unit_ball_keeps_its_surface() {
    assert!(in_unit_ball(s(0.0)));
    assert!(in_unit_ball(s(0.75)));
    assert!(in_unit_ball(s(1.0)));
    assert!(!in_unit_ball(s(1.0000001)));
    assert!(!in_unit_ball(s(12.0)));
}

fn nearest(hits: &[Option<f32>], skip: Option<usize>) -> Option<(u32, usize)> {
    let hits: Vec<Option<Scalar>> = hits.iter().map(|h| h.map(s)).collect();
    nearest_hit(&hits, skip).map(|(d, i)| (d.to_bits(), i))
}

#[test]
fn nearest_hit_takes_the_smallest_distance() {
    assert_eq!(nearest(&[Some(0.5), Some(2.5), Some(1.5)], None), Some((0.5f32.to_bits(), 0)));
    assert_eq!(nearest(&[Some(0.5), Some(2.5), Some(1.5)], Some(0)), Some((1.5f32.to_bits(), 2)));
    assert_eq!(nearest(&[Some(0.5), Some(2.5), Some(1.5)], Some(2)), Some((0.5f32.to_bits(), 0)));
    assert_eq!(nearest(&[Some(0.5), Some(2.5), Some(1.5)], Some(7)), Some((0.5f32.to_bits(), 0)));
    assert_eq!(nearest(&[None, Some(4.0), None], None), Some((4.0f32.to_bits(), 1)));
    assert_eq!(
        nearest(&[Some(f32::INFINITY)], None),
        Some((f32::INFINITY.to_bits(), 0))
    );
}

#[test]
fn nearest_hit_finds_nothing() {
    assert_eq!(nearest(&[], None), None);
    assert_eq!(nearest(&[None, None], None), None);
    assert_eq!(nearest(&[Some(1.0)], Some(0)), None);
    assert_eq!(nearest(&[None, Some(1.0), None], Some(1)), None);
    assert_eq!(nearest(&[Some(f32::NAN)], None), None);
}

#[test]
fn nearest_hit_keeps_the_first_of_equals() {
    assert_eq!(nearest(&[Some(2.0), Some(1.0), None, Some(1.0)], None), Some((1.0f32.to_bits(), 1)));
    assert_eq!(
        nearest(&[Some(2.0), Some(1.0), None, Some(1.0)], Some(1)),
        Some((1.0f32.to_bits(), 3))
    );
    assert_eq!(nearest(&[Some(3.0), Some(3.0), Some(3.0)], Some(0)), Some((3.0f32.to_bits(), 1)));
}

#[test]
fn nearest_hit_looks_ahead_only() {
    assert_eq!(nearest(&[Some(0.0), Some(-0.0)], None), None);
    assert_eq!(nearest(&[Some(-1.0), Some(2.0)], None), Some((2.0f32.to_bits(), 1)));
    assert_eq!(nearest(&[Some(0.0), Some(f32::MIN_POSITIVE)], None), Some((f32::MIN_POSITIVE.to_bits(), 1)));
    assert_eq!(nearest(&[Some(f32::NEG_INFINITY)], None), None);
}

#[test]
fn nearest_hit_passes_over_what_is_no_number() {
    assert_eq!(nearest(&[Some(f32::NAN), Some(3.0)], None), Some((3.0f32.to_bits(), 1)));
    assert_eq!(nearest(&[Some(3.0), Some(f32::NAN), Some(2.0)], None), Some((2.0f32.to_bits(), 2)));
}

fn material(specularity: f32, diffusion: f32, refraction: f32, emittance: f32) -> Material {
    Material::new(
        s(specularity),
        s(0.0),
        s(diffusion),
        s(refraction),
        s(emittance),
        Color::new(s(1.0), s(0.5), s(0.25)),
    )
}

#[test]
fn path_ends_at_depth_zero_or_in_the_void() {
    assert_eq!(proceed(0, Some((s(1.0), 3))), None);
    assert_eq!(proceed(0, None), None);
    assert_eq!(proceed(6, None), None);
    assert_eq!(
        proceed(6, Some((s(1.5), 3))),
        Some(Impact { distance: s(1.5), index: 3, depth: 5 })
    );
    assert_eq!(
        proceed(1, Some((s(0.5), 0))),
        Some(Impact { distance: s(0.5), index: 0, depth: 0 })
    );
}

#[test]
fn terms_follow_the_weights() {
    assert_eq!(
        terms(&material(0.5, 1.0, 0.0, 0.0)),
        Terms { specular: true, diffuse: true, refractive: false }
    );
    assert_eq!(
        terms(&material(0.0, 0.0, 1.0, 0.0)),
        Terms { specular: false, diffuse: false, refractive: true }
    );
    assert_eq!(
        terms(&material(-1.0, f32::NAN, -0.0, 3.0)),
        Terms { specular: false, diffuse: false, refractive: false }
    );
}

#[test]
fn emitter_alone_sends_no_ray_on() {
    let light = material(0.0, 0.0, 0.0, 1.0);
    for depth in 1..8 {
        assert!(proceed(depth, Some((s(2.0), 0))).is_some());
        assert_eq!(terms(&light), Terms { specular: false, diffuse: false, refractive: false });
    }
}

#[test]
fn refraction_splits_near_the_start_only() {
    assert_eq!(refraction(s(-0.1), 6, 6), Refraction::TotalReflection);
    assert_eq!(refraction(s(-0.1), 6, 1), Refraction::TotalReflection);
    assert_eq!(refraction(s(0.3), 6, 6), Refraction::Split);
    assert_eq!(refraction(s(0.3), 6, 5), Refraction::Split);
    assert_eq!(refraction(s(0.3), 6, 4), Refraction::Roulette);
    assert_eq!(refraction(s(0.0), 6, 1), Refraction::Roulette);
    assert_eq!(refraction(s(0.3), 6, 7), Refraction::Split);
    assert_eq!(refraction(s(0.3), 1, 0), Refraction::Split);
    assert_eq!(refraction(s(0.3), 2, 0), Refraction::Roulette);
}

#[test]
fn roulette_reflects_below_the_probability() {
    assert_eq!(roulette(s(0.2), s(0.25)), Branch::Reflection);
    assert_eq!(roulette(s(0.0), s(0.75)), Branch::Reflection);
    assert_eq!(roulette(s(0.25), s(0.25)), Branch::Transmission);
    assert_eq!(roulette(s(0.9), s(0.75)), Branch::Transmission);
    assert_eq!(roulette(s(1.0), s(0.75)), Branch::Transmission);
}

#[test]
fn medium_is_left_on_a_negative_cosine() {
    assert!(leaves_medium(s(-0.5)));
    assert!(leaves_medium(s(-1.0)));
    assert!(!leaves_medium(s(0.5)));
    assert!(!leaves_medium(s(0.0)));
    assert!(!leaves_medium(s(-0.0)));
}

#[test]
fn quantize_rounds_and_clamps() {
    assert_eq!(quantize(s(0.0)), 0);
    assert_eq!(quantize(s(-0.0)), 0);
    assert_eq!(quantize(s(1.0)), 255);
    assert_eq!(quantize(s(0.5)), 128);
    assert_eq!(quantize(s(0.25)), 64);
    assert_eq!(quantize(s(0.2)), 51);
    assert_eq!(quantize(s(0.1)), 26);
    assert_eq!(quantize(s(0.001)), 0);
    assert_eq!(quantize(s(0.002)), 1);
    assert_eq!(quantize(s(0.998)), 254);
    assert_eq!(quantize(s(0.999)), 255);
    assert_eq!(quantize(s(0.99999994)), 255);
    assert_eq!(quantize(s(1.0 / 255.0)), 1);
    assert_eq!(quantize(s(100.0 / 255.0)), 100);
    assert_eq!(quantize(s(f32::from_bits(1))), 0);
    assert_eq!(quantize(s(f32::MIN_POSITIVE)), 0);
}

#[test]
fn quantize_saturates() {
    assert_eq!(quantize(s(1.0000001)), 255);
    assert_eq!(quantize(s(2.5)), 255);
    assert_eq!(quantize(s(f32::MAX)), 255);
    assert_eq!(quantize(s(f32::INFINITY)), 255);
    assert_eq!(quantize(s(-0.3)), 0);
    assert_eq!(quantize(s(-7.0)), 0);
    assert_eq!(quantize(s(f32::NEG_INFINITY)), 0);
    assert_eq!(quantize(s(f32::NAN)), 0);
}

#[test]
fn quantize_is_the_nearest_byte() {
    let mut bits = 0x3a00_0000u32;
    while bits < 0x3f80_0000 {
        let x = f32::from_bits(bits) as f64;
        let q = quantize(Scalar::from_bits(bits)) as f64;
        assert_eq!(q, (255.0 * x + 0.5).floor(), "{}", x);
        bits += 0x1_2345;
    }
}

#[test]
fn seeds_pack_the_position() {
    assert_eq!(pixel_seed(0, 0), 0);
    assert_eq!(pixel_seed(0, 1), 1);
    assert_eq!(pixel_seed(1, 0), 0x1_0000_0000);
    assert_eq!(pixel_seed(3, 7), 0x3_0000_0007);
    assert_eq!(pixel_seed(u32::MAX, u32::MAX), u64::MAX);
    assert_ne!(pixel_seed(1, 2), pixel_seed(2, 1));
}

#[test]
fn seeds_repeat() {
    for x in 0..20 {
        for y in 0..20 {
            assert_eq!(pixel_seed(x, y), pixel_seed(x, y));
        }
    }
}

#[test]
fn assemble_lays_rows_out_in_order() {
    let pixels: Vec<[u8; 3]> = vec![
        [1, 2, 3],
        [4, 5, 6],
        [7, 8, 9],
        [10, 11, 12],
        [13, 14, 15],
        [16, 17, 18],
    ];
    let img = assemble(3, 2, &pixels).unwrap();
    assert_eq!(img.size(), (3, 2));
    let bytes = img.into_bytes();
    assert_eq!(bytes, (1..=18).collect::<Vec<u8>>());
    // pixel (x, y) = (1, 1) is the fifth pixel
    assert_eq!(&bytes[3 * (1 * 3 + 1)..3 * (1 * 3 + 1) + 3], &[13, 14, 15]);
}

#[test]
fn assemble_refuses_a_wrong_count() {
    let pixels: Vec<[u8; 3]> = vec![[1, 2, 3]; 5];
    assert!(assemble(3, 2, &pixels).is_none());
    assert!(assemble(2, 2, &pixels).is_none());
    assert!(assemble(0, 0, &pixels).is_none());
    assert!(assemble(5, 1, &pixels).is_some());
    assert!(assemble(1, 5, &pixels).is_some());
    assert!(assemble(u32::MAX, u32::MAX, &pixels).is_none());
}

#[test]
fn assemble_accepts_an_empty_picture() {
    let none: Vec<[u8; 3]> = Vec::new();
    let img = assemble(0, 4, &none).unwrap();
    assert_eq!(img.size(), (0, 4));
    assert!(img.into_bytes().is_empty());
    assert!(assemble(0, 0, &none).is_some());
}

#[test]
fn assemble_is_repeatable() {
    let pixels: Vec<[u8; 3]> = (0..12u8).map(|k| [k, 2 * k, 255 - k]).collect();
    let a = assemble(4, 3, &pixels).unwrap().into_bytes();
    let b = assemble(4, 3, &pixels).unwrap().into_bytes();
    assert_eq!(a, b);
}

#[test]
fn probability_stays_between_a_quarter_and_three_quarters() {
    assert_eq!(f(probability(s(0.25))), 0.25);
    assert_eq!(f(probability(s(0.5))), 0.5);
    assert_eq!(f(probability(s(0.75))), 0.75);
    assert_eq!(f(probability(s(0.3))), 0.3);
    assert_eq!(f(probability(s(0.2))), 0.25);
    assert_eq!(f(probability(s(-4.0))), 0.25);
    assert_eq!(f(probability(s(0.8))), 0.75);
    assert_eq!(f(probability(s(f32::INFINITY))), 0.75);
    assert_eq!(f(probability(s(f32::NAN))), 0.25);
}

#[test]
fn position_counts_row_by_row() {
    assert_eq!(position(3, 2, 0), Some((0, 0)));
    assert_eq!(position(3, 2, 2), Some((2, 0)));
    assert_eq!(position(3, 2, 3), Some((0, 1)));
    assert_eq!(position(3, 2, 5), Some((2, 1)));
    assert_eq!(position(3, 2, 6), None);
    assert_eq!(position(0, 5, 0), None);
    assert_eq!(position(5, 0, 0), None);
    assert_eq!(
        position(u32::MAX, u32::MAX, u32::MAX as u64 * u32::MAX as u64 - 1),
        Some((u32::MAX - 1, u32::MAX - 1))
    );
}

#[test]
fn position_and_assemble_agree() {
    let pixels: Vec<[u8; 3]> = (0..20u8).map(|k| [k, k + 100, k + 200]).collect();
    let bytes = assemble(5, 4, &pixels).unwrap().into_bytes();
    for i in 0..20u64 {
        let (x, y) = position(5, 4, i).unwrap();
        let at = 3 * (y as usize * 5 + x as usize);
        assert_eq!(&bytes[at..at + 3], &pixels[i as usize]);
    }
}

#[test]
fn pixel_takes_each_channel() {
    assert_eq!(pixel(&Color::new(s(1.0), s(0.5), s(0.0))), [255, 128, 0]);
    assert_eq!(pixel(&Color::new(s(0.2), s(7.0), s(-1.0))), [51, 255, 0]);
}

#[test]
fn side_is_one_with_the_sign_of_the_cosine() {
    for &a in samples().iter() {
        assert_eq!(side(s(a)).to_bits(), 1.0f32.copysign(a).to_bits(), "{}", a);
    }
}

#[test]
fn pixel_stream_starts_from_the_seed() {
    assert_eq!(pixel_rng(3, 7), Xoshiro256Plus::seed_from_u64(0x3_0000_0007));
    assert_eq!(pixel_rng(0, 0), Xoshiro256Plus::seed_from_u64(0));
    assert_ne!(pixel_rng(3, 7), pixel_rng(7, 3));
    let mut first = pixel_rng(3, 7);
    let mut again = pixel_rng(3, 7);
    let mut other = pixel_rng(3, 8);
    let drawn: Vec<u64> = (0..8).map(|_| first.next_u64()).collect();
    let repeated: Vec<u64> = (0..8).map(|_| again.next_u64()).collect();
    let elsewhere: Vec<u64> = (0..8).map(|_| other.next_u64()).collect();
    assert_eq!(drawn, repeated);
    assert_ne!(drawn, elsewhere);
}

#[test]
fn pixel_count_multiplies_or_gives_up() {
    assert_eq!(pixel_count(210, 210), Some(44100));
    assert_eq!(pixel_count(0, 9), Some(0));
    assert_eq!(pixel_count(1, 1), Some(1));
    assert_eq!(pixel_count(65536, 65536), Some(1 << 32));
    assert_eq!(pixel_count(u32::MAX, u32::MAX), None);
}

#[test]
fn extent_is_the_whole_part() {
    assert_eq!(extent(s(210.0)), 210);
    assert_eq!(extent(s(209.99998)), 209);
    assert_eq!(extent(s(0.99999994)), 0);
    assert_eq!(extent(s(1.0)), 1);
    assert_eq!(extent(s(1.5)), 1);
    assert_eq!(extent(s(8388607.5)), 8388607);
    assert_eq!(extent(s(16777216.0)), 16777216);
    assert_eq!(extent(s(4294967040.0)), 4294967040);
    assert_eq!(extent(s(4294967296.0)), u32::MAX);
    assert_eq!(extent(s(f32::INFINITY)), u32::MAX);
    assert_eq!(extent(s(-3.0)), 0);
    assert_eq!(extent(s(f32::NAN)), 0);
}

#[test]
fn extent_agrees_with_the_hardware() {
    for &a in samples().iter() {
        assert_eq!(extent(s(a)), a as u32, "{}", a);
    }
    let mut bits = 0x3f00_0000u32;
    while bits < 0x5000_0000 {
        let a = f32::from_bits(bits);
        assert_eq!(extent(s(a)), a as u32, "{}", a);
        bits += 0x3_1415;
    }
}

fn faced(n: (f32, f32, f32), cos_in: f32) -> (u32, u32, u32) {
    let r = facing(Point::new(s(n.0), s(n.1), s(n.2)), s(cos_in));
    (r.x.to_bits(), r.y.to_bits(), r.z.to_bits())
}

fn bits(n: (f32, f32, f32)) -> (u32, u32, u32) {
    (n.0.to_bits(), n.1.to_bits(), n.2.to_bits())
}

#[test]
fn facing_turns_a_normal_that_points_along_the_ray() {
    assert_eq!(faced((1.0, 0.0, 0.0), 1.0), bits((-1.0, -0.0, -0.0)));
    assert_eq!(faced((0.6, -0.8, 0.0), 0.3), bits((-0.6, 0.8, -0.0)));
    assert_eq!(faced((0.0, 0.0, 1.0), f32::MIN_POSITIVE), bits((-0.0, -0.0, -1.0)));
}

#[test]
fn facing_keeps_a_normal_that_opposes_the_ray() {
    assert_eq!(faced((-1.0, 0.0, 0.0), -1.0), bits((-1.0, 0.0, 0.0)));
    assert_eq!(faced((0.6, -0.8, 0.0), -0.3), bits((0.6, -0.8, 0.0)));
    assert_eq!(faced((0.0, 1.0, 0.0), 0.0), bits((0.0, 1.0, 0.0)));
    assert_eq!(faced((0.0, 1.0, 0.0), -0.0), bits((0.0, 1.0, 0.0)));
    assert_eq!(faced((0.0, 1.0, 0.0), f32::NAN), bits((0.0, 1.0, 0.0)));
}

#[test]
fn pixel_count_refuses_a_row_too_long_to_count() {
    let most = (isize::MAX / 3) as u64;
    for &width in [1u32, 0x5555_5555, 0x5555_5556, 0x6000_0000, u32::MAX].iter() {
        let fits = width as u64 <= most;
        assert_eq!(pixel_count(width, 0), if fits { Some(0) } else { None });
        assert_eq!(pixel_count(width, 1), if fits { Some(width as u64) } else { None });
        let none: Vec<[u8; 3]> = Vec::new();
        assert_eq!(assemble(width, 0, &none).is_some(), fits);
    }
}
