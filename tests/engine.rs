use flowfield::color::{hue_to_rgb, u32_to_color, Rgb};
use flowfield::coord::{to_pixel_index, Coord, ONE};
use flowfield::frame::{clear_buffer, fade_buffer, fade_pixel, write_particles};
use flowfield::pacing::{frame_pacing, Pace};
use flowfield::particle::{Param, Particle, Velocity};
use flowfield::system::update_all;
use rand::rngs::StdRng;
use rand::{Rng, SeedableRng};

fn rgb(r: u8, g: u8, b: u8) -> Rgb {
    Rgb { r, g, b }
}

fn particle(x: i32, y: i32, dx: i32, dy: i32, lifetime: u32) -> Particle {
    Particle { coord: Coord::new(x, y), velocity: Velocity { dx, dy }, lifetime }
}

#[test]
fn hue_to_rgb_primaries() {
    assert_eq!(hue_to_rgb(0, 255, 255), rgb(255, 0, 0));
    assert_eq!(hue_to_rgb(120, 255, 255), rgb(0, 255, 0));
    assert_eq!(hue_to_rgb(240, 255, 255), rgb(0, 0, 255));
}

#[test]
fn hue_to_rgb_secondaries_and_midpoints() {
    assert_eq!(hue_to_rgb(60, 255, 255), rgb(255, 255, 0));
    assert_eq!(hue_to_rgb(180, 255, 255), rgb(0, 255, 255));
    assert_eq!(hue_to_rgb(300, 255, 255), rgb(255, 0, 255));
    assert_eq!(hue_to_rgb(30, 255, 255), rgb(255, 127, 0));
    assert_eq!(hue_to_rgb(330, 255, 255), rgb(255, 0, 127));
}

#[test]
fn hue_to_rgb_saturation_and_value() {
    assert_eq!(hue_to_rgb(200, 0, 200), rgb(200, 200, 200));
    assert_eq!(hue_to_rgb(0, 255, 0), rgb(0, 0, 0));
    // chroma 255 * 128 / 255 = 128, m = 127
    assert_eq!(hue_to_rgb(0, 128, 255), rgb(255, 127, 127));
}

#[test]
fn hue_wraps_at_full_turn() {
    assert_eq!(hue_to_rgb(360, 255, 255), hue_to_rgb(0, 255, 255));
    for s in [0u8, 17, 128, 255] {
        for v in [0u8, 99, 255] {
            assert_eq!(hue_to_rgb(360, s, v), hue_to_rgb(0, s, v));
        }
    }
    for h in 0..=360u32 {
        let c = hue_to_rgb(h, 255, 255);
        assert_eq!(c.r.max(c.g).max(c.b), 255);
        assert_eq!(c.r.min(c.g).min(c.b), 0);
    }
}

#[test]
fn packing_round_trip() {
    assert_eq!(rgb(1, 2, 3).to_u32(), 0x0001_0203);
    assert_eq!(u32_to_color(0xAB12_3456), rgb(0x12, 0x34, 0x56));
    assert_eq!(u32_to_color(0x00FF_8000).to_u32(), 0x00FF_8000);
}

#[test]
fn center_of_even_grid_is_pixel_ten() {
    assert_eq!(to_pixel_index(Coord::new(0, 0), 4, 4), 10);
    let param = Param::new(4, 4, 1000, 10).unwrap();
    let p = particle(0, 0, 0, 0, 10);
    assert_eq!(p.to_coord(&param), 2 * 4 + 2);
}

#[test]
fn pixel_index_corners() {
    assert_eq!(to_pixel_index(Coord::new(-ONE, -ONE), 4, 4), 0);
    assert_eq!(to_pixel_index(Coord::new(ONE, -ONE), 4, 4), 3);
    assert_eq!(to_pixel_index(Coord::new(-ONE, ONE), 4, 4), 12);
    assert_eq!(to_pixel_index(Coord::new(ONE, ONE), 4, 4), 15);
    assert_eq!(to_pixel_index(Coord::new(ONE, ONE), 1080, 800), 1080 * 800 - 1);
    assert_eq!(to_pixel_index(Coord::new(ONE, ONE), 1, 1), 0);
}

#[test]
fn pixel_index_stays_in_buffer() {
    let (w, h) = (7usize, 5usize);
    let mut v = -ONE;
    while v <= ONE {
        let mut u = -ONE;
        while u <= ONE {
            assert!(to_pixel_index(Coord::new(u, v), w, h) < w * h);
            u += 33_333;
        }
        v += 33_333;
    }
}

#[test]
fn param_new_checks_its_fields() {
    assert!(Param::new(0, 4, 10, 10).is_none());
    assert!(Param::new(4, 0, 10, 10).is_none());
    assert!(Param::new(4, 4, ONE as u32 + 1, 10).is_none());
    assert!(Param::new(4, 4, 10, 0).is_none());
    assert!(Param::new(usize::MAX, 2, 10, 10).is_none());
    let p = Param::new(4, 3, 10, 7).unwrap();
    assert_eq!((p.width, p.height, p.iteration_speed, p.iteration, p.max_lifetime), (4, 3, 10, 0, 7));
}

#[test]
fn time_coord_spans_the_axis() {
    let mut p = Param::new(4, 4, 10, 10).unwrap();
    assert_eq!(p.time_coord(), -ONE);
    p.iteration = u16::MAX;
    assert_eq!(p.time_coord(), ONE);
    p.iteration = 1;
    assert_eq!(p.time_coord(), 30 - ONE);
}

#[test]
fn step_moves_a_live_particle() {
    let param = Param::new(4, 4, 1000, 10).unwrap();
    let mut p = particle(100, -200, 600, -800, 5);
    p.step(&param, Coord::new(7, 7));
    assert_eq!(p, particle(700, -1000, 600, -800, 4));
}

#[test]
fn spent_particle_respawns_with_full_lifetime() {
    let param = Param::new(4, 4, 1000, 10).unwrap();
    let mut p = particle(100, 100, 10, 10, 0);
    p.step(&param, Coord::new(-5, 9));
    assert_eq!(p, particle(-5, 9, 0, 0, 9));
}

#[test]
fn escaping_particle_respawns_whatever_its_lifetime() {
    let param = Param::new(4, 4, 1000, 10).unwrap();
    let mut p = particle(ONE - 10, 0, 1000, 0, 10);
    p.step(&param, Coord::new(3, 4));
    assert_eq!(p, particle(3, 4, 0, 0, 9));
    let mut q = particle(0, -ONE, 0, -1, 3);
    q.step(&param, Coord::new(1, 2));
    assert_eq!(q, particle(1, 2, 0, 0, 9));
    // exactly on the border is still inside
    let mut r = particle(ONE - 1000, 0, 1000, 0, 3);
    r.step(&param, Coord::new(1, 2));
    assert_eq!(r, particle(ONE, 0, 1000, 0, 2));
}

#[test]
fn max_lifetime_one_respawns_every_tick() {
    let param = Param::new(4, 4, 1000, 1).unwrap();
    let mut p = particle(0, 0, 0, 0, 1);
    p.step(&param, Coord::new(5, 5));
    assert_eq!(p, particle(0, 0, 0, 0, 0));
    p.step(&param, Coord::new(5, 5));
    assert_eq!(p, particle(5, 5, 0, 0, 0));
}

#[test]
fn update_draws_respawn_points_in_the_square() {
    let param = Param::new(16, 16, 1000, 3).unwrap();
    let mut rng = StdRng::seed_from_u64(7);
    let mut seen = Vec::new();
    for _ in 0..50 {
        let mut p = particle(ONE, ONE, 1000, 0, 2);
        p.update(&param, &mut rng);
        assert!(p.coord.is_in_domain());
        assert!(p.coord.x < ONE && p.coord.y < ONE);
        assert_eq!(p.lifetime, 2);
        assert_eq!(p.velocity, Velocity { dx: 0, dy: 0 });
        seen.push(p.coord);
    }
    assert!(seen.iter().any(|c| *c != seen[0]));
    let mut live = particle(0, 0, 10, 20, 2);
    live.update(&param, &mut rng);
    assert_eq!(live, particle(10, 20, 10, 20, 1));
}

#[test]
fn new_particles_are_spread_over_the_square() {
    let param = Param::new(8, 8, 1000, 40).unwrap();
    let mut rng = StdRng::seed_from_u64(42);
    let ps: Vec<Particle> = (0..100).map(|_| Particle::new(&param, &mut rng)).collect();
    for p in &ps {
        assert!(p.coord.x >= -ONE && p.coord.x < ONE);
        assert!(p.coord.y >= -ONE && p.coord.y < ONE);
        assert_eq!(p.lifetime, 40);
        assert_eq!(p.velocity, Velocity { dx: 0, dy: 0 });
    }
    assert!(ps.iter().any(|p| p.coord.x < 0) && ps.iter().any(|p| p.coord.x > 0));
    assert!(ps.iter().any(|p| p.coord.y < 0) && ps.iter().any(|p| p.coord.y > 0));
}

#[test]
fn set_velocity_limits_each_component() {
    let param = Param::new(4, 4, 1000, 10).unwrap();
    let mut p = particle(5, 6, 0, 0, 3);
    // clamped to (1000, -1000), then shrunk by eighths: 875, 765, 669
    p.set_velocity(5000, -5000, &param);
    assert_eq!(p, particle(5, 6, 669, -669, 3));
    p.set_velocity(-300, 999, &param);
    assert_eq!(p, particle(5, 6, -262, 874, 3));
    p.set_velocity(-300, 900, &param);
    assert_eq!(p, particle(5, 6, -300, 900, 3));
    p.set_velocity(600, 800, &param);
    assert_eq!(p.velocity, Velocity { dx: 600, dy: 800 });
    p.set_velocity(0, -1000, &param);
    assert_eq!(p.velocity, Velocity { dx: 0, dy: -1000 });
    p.set_velocity(i32::MIN, i32::MAX, &param);
    assert_eq!(p.velocity, Velocity { dx: -669, dy: 669 });
}

#[test]
fn colorize_follows_remaining_lifetime() {
    let param = Param::new(4, 4, 1000, 2).unwrap();
    assert_eq!(particle(0, 0, 0, 0, 2).colorize(&param), 0x00FF_0000);
    assert_eq!(particle(0, 0, 0, 0, 1).colorize(&param), 0x0000_FFFF);
    assert_eq!(particle(0, 0, 0, 0, 0).colorize(&param), 0x00FF_0000);
    let param = Param::new(4, 4, 1000, 3).unwrap();
    assert_eq!(particle(0, 0, 0, 0, 1).colorize(&param), 0x0000_FF00);
}

#[test]
fn fade_pixel_saturates() {
    assert_eq!(fade_pixel(0x0010_2030, 0x20), 0x0000_0050);
    assert_eq!(fade_pixel(0x0080_8080, 0x10), 0x0070_7090);
    assert_eq!(fade_pixel(0xFF00_00FF, 9), 0x0000_00FF);
    let mut n = 0x0003_00F0u32;
    for _ in 0..100 {
        n = fade_pixel(n, 7);
        let c = u32_to_color(n);
        assert_eq!((c.r, c.g), (0, 0));
        assert!(n < 0x0100_0000);
    }
    assert_eq!(n, 0x0000_00FF);
}

#[test]
fn fade_and_clear_buffers() {
    let mut buf = vec![0x00FF_FFFFu32, 0, 0x0001_0101];
    fade_buffer(&mut buf, 2);
    assert_eq!(buf, vec![0x00FD_FDFF, 0x0000_0002, 0x0000_0003]);
    clear_buffer(&mut buf);
    assert_eq!(buf, vec![0, 0, 0]);
}

#[test]
fn later_write_wins_a_shared_pixel() {
    let param = Param::new(4, 4, 1000, 2).unwrap();
    let a = particle(0, 0, 0, 0, 2);
    let b = particle(0, 0, 0, 0, 1);
    let c = particle(-ONE, -ONE, 0, 0, 2);
    let mut buf = vec![7u32; 16];
    write_particles(&mut buf, &vec![a, b, c], &param);
    assert_eq!(buf[10], 0x0000_FFFF);
    assert_eq!(buf[0], 0x00FF_0000);
    assert_eq!(buf.iter().filter(|v| **v == 7).count(), 14);
    let mut buf2 = vec![7u32; 16];
    write_particles(&mut buf2, &vec![b, a, c], &param);
    assert_eq!(buf2[10], 0x00FF_0000);
}

#[test]
fn write_order_keeps_the_occupied_pixels() {
    let param = Param::new(9, 7, 1000, 5).unwrap();
    let mut rng = StdRng::seed_from_u64(3);
    let ps: Vec<Particle> = (0..40).map(|_| Particle::new(&param, &mut rng)).collect();
    let mut forward = vec![0u32; 63];
    write_particles(&mut forward, &ps, &param);
    let mut reversed: Vec<Particle> = ps.clone();
    reversed.reverse();
    let mut backward = vec![0u32; 63];
    write_particles(&mut backward, &reversed, &param);
    // two workers, each with half of the particles, on one buffer
    let mut split = vec![0u32; 63];
    write_particles(&mut split, &ps[20..].to_vec(), &param);
    write_particles(&mut split, &ps[..20].to_vec(), &param);
    let occupied = |b: &Vec<u32>| -> Vec<usize> { (0..63).filter(|i| b[*i] != 0).collect() };
    let expected: Vec<usize> = {
        let mut v: Vec<usize> = ps.iter().map(|p| p.to_coord(&param)).collect();
        v.sort();
        v.dedup();
        v
    };
    assert_eq!(occupied(&forward), expected);
    assert_eq!(occupied(&backward), expected);
    assert_eq!(occupied(&split), expected);
}

#[test]
fn pacing_sleeps_or_reports() {
    assert_eq!(frame_pacing(10, 16), Pace::Sleep(6));
    assert_eq!(frame_pacing(16, 16), Pace::Late(0));
    assert_eq!(frame_pacing(20, 16), Pace::Late(4));
    assert_eq!(frame_pacing(0, 16_666_666), Pace::Sleep(16_666_666));
}

#[test]
fn update_all_ticks_every_particle_in_place() {
    let param = Param::new(8, 8, 500, 4).unwrap();
    let mut rng = StdRng::seed_from_u64(11);
    let mut ps = vec![
        particle(0, 0, 300, -400, 3),
        particle(100, 100, 0, 0, 0),
        particle(-ONE, 0, -1, 0, 4),
        particle(ONE, ONE, 0, 0, 1),
    ];
    update_all(&mut ps, &param, &mut rng);
    assert_eq!(ps.len(), 4);
    assert_eq!(ps[0], particle(300, -400, 300, -400, 2));
    assert_eq!(ps[1].lifetime, 3);
    assert_eq!(ps[1].velocity, Velocity { dx: 0, dy: 0 });
    assert!(ps[1].coord.is_in_domain());
    assert_eq!(ps[2].lifetime, 3);
    assert!(ps[2].coord.is_in_domain() && ps[2].coord.x < ONE);
    assert_eq!(ps[3], particle(ONE, ONE, 0, 0, 0));
}

#[test]
fn split_workers_tick_like_one() {
    let param = Param::new(8, 8, 500, 4).unwrap();
    let start = vec![
        particle(0, 0, 300, 400, 3),
        particle(10, -10, -500, 0, 1),
        particle(ONE, 0, 200, 0, 2),
    ];
    let fresh = [Coord::new(1, 1), Coord::new(2, 2), Coord::new(3, 3)];
    let mut one = start.clone();
    for (p, f) in one.iter_mut().zip(fresh.iter()) {
        p.step(&param, *f);
    }
    let mut first = start[..1].to_vec();
    let mut second = start[1..].to_vec();
    first[0].step(&param, fresh[0]);
    for (p, f) in second.iter_mut().zip(fresh[1..].iter()) {
        p.step(&param, *f);
    }
    first.extend(second);
    assert_eq!(one, first);
    assert_eq!(one[2], particle(3, 3, 0, 0, 3));
}

#[test]
fn step_length_stays_within_speed() {
    let param = Param::new(8, 8, 1000, 10).unwrap();
    for (dx, dy) in [(1000, 1000), (-999, 999), (707, -708), (1, 1000), (-4000, 3000)] {
        let mut p = particle(0, 0, 0, 0, 5);
        p.set_velocity(dx, dy, &param);
        p.step(&param, Coord::new(9, 9));
        let (x, y) = (p.coord.x as i64, p.coord.y as i64);
        assert!(x * x + y * y <= 1000 * 1000);
    }
}

#[test]
fn update_without_respawn_leaves_rng_alone() {
    let param = Param::new(8, 8, 1000, 10).unwrap();
    let mut rng = StdRng::seed_from_u64(5);
    let mut twin = rng.clone();
    let mut p = particle(0, 0, 10, 10, 4);
    p.update(&param, &mut rng);
    assert_eq!(p, particle(10, 10, 10, 10, 3));
    assert_eq!(rng.gen::<u64>(), twin.gen::<u64>());
}
