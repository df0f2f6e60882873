use glyphfield::escape::{Cx, Ifs};
use glyphfield::grid::{map_axis, GridDriver};
use glyphfield::noise::{GradientNoiseField, Vec2, NORM_SQ_HI, NORM_SQ_LO};
use glyphfield::quantize::{quantize, val_to_char};
use glyphfield::rng::Rand64;

const S: i64 = 65536;

fn default_ramp() -> Vec<char> {
    vec!['@', '%', '#', '*', '+', '=', '~', ':', '.', ' ']
}

#[test]
fn quantize_default_ramp_edges() {
    assert_eq!(val_to_char(0), '@');
    assert_eq!(val_to_char(24), '@');
    assert_eq!(val_to_char(25), '%');
    assert_eq!(val_to_char(250), ' ');
    assert_eq!(val_to_char(255), ' ');
}

#[test]
fn quantize_mid_buckets() {
    assert_eq!(val_to_char(26), '%');
    assert_eq!(val_to_char(50), '#');
    assert_eq!(val_to_char(130), '=');
    assert_eq!(val_to_char(224), '.');
    assert_eq!(val_to_char(225), ' ');
}

#[test]
fn quantize_small_ramps() {
    let two = vec!['a', 'b'];
    assert_eq!(quantize(0, &two), 'a');
    assert_eq!(quantize(126, &two), 'a');
    assert_eq!(quantize(127, &two), 'b');
    assert_eq!(quantize(255, &two), 'b');
    let one = vec!['z'];
    assert_eq!(quantize(0, &one), 'z');
    assert_eq!(quantize(255, &one), 'z');
}

#[test]
fn iterate_immediate_escape() {
    let ifs = Ifs::new(2);
    assert_eq!(ifs.iter(Cx { re: 3 * S, im: 0 }), 2);
}

#[test]
fn iterate_bounded_origin() {
    let ifs = Ifs::new(2);
    assert_eq!(ifs.iter(Cx { re: 0, im: 0 }), 0);
}

#[test]
fn iterate_escape_large_cap() {
    let ifs = Ifs::new(256);
    assert_eq!(ifs.iter(Cx { re: 2 * S, im: 2 * S }), 256);
}

#[test]
fn iterate_interior_point_stays_bounded() {
    let ifs = Ifs::new(64);
    assert_eq!(ifs.iter(Cx { re: -S, im: 0 }), 0);
}

#[test]
fn iterate_result_within_cap() {
    let ifs = Ifs::new(100);
    let pts = [
        (0i64, 0i64),
        (S, S),
        (-S / 2, S / 3),
        (3 * S, -3 * S),
        (S / 4, 0),
        (-2 * S, S),
    ];
    for &(re, im) in pts.iter() {
        let r = ifs.iter(Cx { re, im });
        assert!(r <= 100);
    }
}

#[test]
fn iterate_zero_cap_yields_zero() {
    let ifs = Ifs::new(0);
    assert_eq!(ifs.iter(Cx { re: 3 * S, im: 0 }), 0);
    assert_eq!(ifs.iter(Cx { re: 0, im: 0 }), 0);
}

#[test]
fn permutation_is_bijection() {
    let field = GradientNoiseField::new(424242);
    let mut counts = [0usize; 256];
    assert_eq!(field.perm.len(), 256);
    for &p in field.perm.iter() {
        counts[p as usize] += 1;
    }
    for v in 0..256 {
        assert_eq!(counts[v], 1);
    }
}

#[test]
fn gradients_are_near_unit() {
    let field = GradientNoiseField::new(7);
    for ix in -8i64..9 {
        for iy in -8i64..9 {
            let g = field.gradient_at(ix, iy);
            let n = g.x * g.x + g.y * g.y;
            assert!(n >= NORM_SQ_LO && n <= NORM_SQ_HI);
            let len = ((n as f64).sqrt()) / 65536.0;
            assert!((len - 1.0).abs() < 1e-3);
        }
    }
}

#[test]
fn same_seed_same_samples() {
    let f1 = GradientNoiseField::new(99);
    let f2 = GradientNoiseField::new(99);
    for i in -20i64..21 {
        for j in -20i64..21 {
            let x = i * 13131 + 7;
            let y = j * 9999 - 3;
            assert_eq!(f1.sample(x, y), f2.sample(x, y));
            assert_eq!(f1.gradient_at(i, j), f2.gradient_at(i, j));
        }
    }
}

#[test]
fn sample_stays_in_range() {
    let field = GradientNoiseField::new(31337);
    for i in -50i64..51 {
        let v = field.sample(i * 5000 + 123, -i * 777 + 45);
        assert!(-2 * S <= v && v <= 2 * S);
    }
}

#[test]
fn sample_continuous_at_cell_boundary() {
    let field = GradientNoiseField::new(2024);
    for k in -5i64..6 {
        let x = k * S;
        for j in 0i64..5 {
            let y = j * 25000 + 11;
            let at = field.sample(x, y);
            let left = field.sample(x - 1, y);
            assert!((at - left).abs() <= 64);
        }
    }
}

#[test]
fn sample_continuous_at_row_boundary() {
    let field = GradientNoiseField::new(512);
    for k in -5i64..6 {
        let y = k * S;
        for j in 0i64..5 {
            let x = j * 31000 + 17;
            let at = field.sample(x, y);
            let below = field.sample(x, y - 1);
            assert!((at - below).abs() <= 64);
        }
    }
}

#[test]
fn render_noise_is_deterministic_in_seed() {
    let f1 = GradientNoiseField::new(77);
    let f2 = GradientNoiseField::new(77);
    let ramp = default_ramp();
    let vmin = Vec2 { x: -2 * S, y: -2 * S };
    let vmax = Vec2 { x: 2 * S, y: 2 * S };
    let driver = GridDriver::new(10, 10);
    let a = driver.render_noise(&f1, vmin, vmax, &ramp);
    let b = driver.render_noise(&f2, vmin, vmax, &ramp);
    assert_eq!(a, b);
}

#[test]
fn rng_is_reproducible() {
    let mut a = Rand64::new(5);
    let mut b = Rand64::new(5);
    for _ in 0..10 {
        assert_eq!(a.next_u64(), b.next_u64());
    }
    let mut c = Rand64::new(5);
    for _ in 0..10 {
        let v = c.next_below(17);
        assert!(v < 17);
    }
}

#[test]
fn map_axis_endpoints() {
    assert_eq!(map_axis(0, S, 0, 4), 0);
    assert_eq!(map_axis(0, S, 1, 4), S / 4);
    assert_eq!(map_axis(0, S, 3, 4), 3 * (S / 4));
    assert_eq!(map_axis(-S, S, 0, 2), -S);
    assert_eq!(map_axis(-S, S, 1, 2), 0);
}

#[test]
fn grid_zero_dimensions_yield_no_rows() {
    let ifs = Ifs::new(2);
    let ramp = default_ramp();
    let min = Cx { re: -S, im: -S };
    let max = Cx { re: S, im: S };
    let d1 = GridDriver::new(0, 5);
    assert_eq!(d1.render_fractal(&ifs, min, max, &ramp).len(), 0);
    let d2 = GridDriver::new(5, 0);
    assert_eq!(d2.render_fractal(&ifs, min, max, &ramp).len(), 0);
    let field = GradientNoiseField::new(1);
    let vmin = Vec2 { x: -S, y: -S };
    let vmax = Vec2 { x: S, y: S };
    let d3 = GridDriver::new(0, 3);
    assert_eq!(d3.render_noise(&field, vmin, vmax, &ramp).len(), 0);
    let d4 = GridDriver::new(3, 0);
    assert_eq!(d4.render_noise(&field, vmin, vmax, &ramp).len(), 0);
}

#[test]
fn grid_constant_domain_renders_densest_glyph() {
    let ifs = Ifs::new(2);
    let ramp = default_ramp();
    let c = Cx { re: 3 * S, im: 0 };
    let driver = GridDriver::new(3, 2);
    let out = driver.render_fractal(&ifs, c, c, &ramp);
    assert_eq!(out.len(), 2);
    for line in out.iter() {
        assert_eq!(line.len(), 3);
        for &g in line.iter() {
            assert_eq!(g, '@');
        }
    }
}

#[test]
fn grid_fractal_smoke_render() {
    let ifs = Ifs::new(255);
    let ramp = default_ramp();
    let min = Cx {
        re: (-14 * S) / 10,
        im: -S,
    };
    let max = Cx {
        re: (6 * S) / 10,
        im: S,
    };
    let driver = GridDriver::new(16, 8);
    let out = driver.render_fractal(&ifs, min, max, &ramp);
    assert_eq!(out.len(), 8);
    for line in out.iter() {
        assert_eq!(line.len(), 16);
        for &g in line.iter() {
            assert!(ramp.contains(&g));
        }
    }
    assert_eq!(out[0][0], val_to_char(ifs.iter(min) as u8));
}

#[test]
fn grid_noise_smoke_render() {
    let field = GradientNoiseField::new(8);
    let ramp = default_ramp();
    let vmin = Vec2 { x: -4 * S, y: -4 * S };
    let vmax = Vec2 { x: 4 * S, y: 4 * S };
    let driver = GridDriver::new(12, 6);
    let out = driver.render_noise(&field, vmin, vmax, &ramp);
    assert_eq!(out.len(), 6);
    for line in out.iter() {
        assert_eq!(line.len(), 12);
        for &g in line.iter() {
            assert!(ramp.contains(&g));
        }
    }
}
