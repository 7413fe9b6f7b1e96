use rand::rngs::StdRng;
use rand::{Rng, RngCore, SeedableRng};
use raytracing::sampling::{
    centre, random_in_unit_disk, random_in_unit_sphere, Sampler, HALF_SIDE, MAX_DRAWS,
};
use raytracing::scalar::Scalar;
use raytracing::vector::Vector3;

fn f(x: Scalar) -> f32 {
    f32::from_bits(x.to_bits())
}

fn s(x: f32) -> Scalar {
    Scalar::from_bits(x.to_bits())
}

/// The coordinate that a word stands for, as the generator's own arithmetic gives it.
fn coordinate(word: u32) -> (i64, f32) {
    let numerator = (word >> 8) as i64 - (1 << 23);
    (numerator, numerator as f32 / (1u32 << 23) as f32)
}

#[test]
fn the_constants_of_the_sampler() {
    assert_eq!(MAX_DRAWS, 1_000_000);
    assert_eq!(HALF_SIDE, 1 << 23);
    assert_eq!(centre(), Vector3::new(s(0.0), s(0.0), s(0.0)));
}

#[test]
fn uniform_draws_are_those_of_the_generator() {
    for seed in [0u64, 1, 7, 0xdead_beef, u64::MAX] {
        let mut sampler = Sampler::seeded(seed);
        let mut generator = StdRng::seed_from_u64(seed);
        for _ in 0..2000 {
            let expected: f32 = generator.gen::<f32>();
            assert_eq!(sampler.uniform().to_bits(), expected.to_bits());
        }
    }
}

#[test]
fn uniform_draws_lie_in_the_unit_interval() {
    let mut sampler = Sampler::seeded(42);
    let mut sum = 0.0f64;
    for _ in 0..20_000 {
        let u = f(sampler.uniform());
        assert!((0.0..1.0).contains(&u));
        assert_eq!((u * 16_777_216.0).fract(), 0.0);
        sum += u as f64;
    }
    assert!((sum / 20_000.0 - 0.5).abs() < 0.02);
}

#[test]
fn the_same_seed_gives_the_same_draws_and_another_seed_others() {
    let mut a = Sampler::seeded(5);
    let mut b = Sampler::seeded(5);
    let mut c = Sampler::seeded(6);
    let first: Vec<u32> = (0..50).map(|_| a.uniform().to_bits()).collect();
    let second: Vec<u32> = (0..50).map(|_| b.uniform().to_bits()).collect();
    let third: Vec<u32> = (0..50).map(|_| c.uniform().to_bits()).collect();
    assert_eq!(first, second);
    assert_ne!(first, third);
    assert!(first.windows(2).any(|pair| pair[0] != pair[1]));
}

#[test]
fn points_of_the_ball_are_the_first_of_the_cube_that_lie_inside() {
    for seed in [3u64, 99, 2024] {
        let mut sampler = Sampler::seeded(seed);
        let mut generator = StdRng::seed_from_u64(seed);
        for _ in 0..500 {
            let expected = loop {
                let (x, fx) = coordinate(generator.next_u32());
                let (y, fy) = coordinate(generator.next_u32());
                let (z, fz) = coordinate(generator.next_u32());
                if x * x + y * y + z * z < (1i64 << 46) {
                    break Vector3::new(s(fx), s(fy), s(fz));
                }
            };
            assert_eq!(random_in_unit_sphere(&mut sampler), expected);
        }
        // Both have drawn the same number of words.
        assert_eq!(sampler.uniform().to_bits(), generator.gen::<f32>().to_bits());
    }
}

#[test]
fn points_of_the_ball_lie_strictly_inside_it() {
    let mut sampler = Sampler::seeded(11);
    let mut octants = [0u32; 8];
    for _ in 0..4000 {
        let p = random_in_unit_sphere(&mut sampler);
        let (x, y, z) = (f(p.x) as f64, f(p.y) as f64, f(p.z) as f64);
        assert!(x * x + y * y + z * z < 1.0);
        for c in [x, y, z] {
            assert_eq!((c * 8_388_608.0).fract(), 0.0);
        }
        octants[(x < 0.0) as usize + 2 * (y < 0.0) as usize + 4 * (z < 0.0) as usize] += 1;
    }
    assert!(octants.iter().all(|&count| count > 350));
}

#[test]
fn points_of_the_disk_are_the_first_of_the_square_that_lie_inside() {
    let mut sampler = Sampler::seeded(17);
    let mut generator = StdRng::seed_from_u64(17);
    for _ in 0..500 {
        let expected = loop {
            let (x, fx) = coordinate(generator.next_u32());
            let (y, fy) = coordinate(generator.next_u32());
            if x * x + y * y < (1i64 << 46) {
                break Vector3::new(s(fx), s(fy), s(0.0));
            }
        };
        assert_eq!(random_in_unit_disk(&mut sampler), expected);
    }
}

#[test]
fn points_of_the_disk_lie_in_the_plane_and_strictly_inside() {
    let mut sampler = Sampler::seeded(23);
    for _ in 0..4000 {
        let p = random_in_unit_disk(&mut sampler);
        let (x, y) = (f(p.x) as f64, f(p.y) as f64);
        assert!(x * x + y * y < 1.0);
        assert_eq!(p.z.to_bits(), 0);
    }
}

#[test]
fn about_half_of_the_cube_lies_in_the_ball() {
    // The ball fills pi / 6 of the cube, so a point takes 6 / pi triples on average.
    let mut sampler = Sampler::seeded(31);
    let mut generator = StdRng::seed_from_u64(31);
    let points = 3000;
    for _ in 0..points {
        random_in_unit_sphere(&mut sampler);
    }
    let mut words = 0u32;
    let marker = sampler.uniform().to_bits();
    let mut replay = Vec::new();
    while replay.last() != Some(&marker) || words < 3 * points {
        replay.push(generator.gen::<f32>().to_bits());
        words += 1;
        assert!(words < 20 * points);
    }
    let triples = (words - 1) as f64 / 3.0;
    assert!((triples / points as f64 - 6.0 / std::f64::consts::PI).abs() < 0.15);
}
