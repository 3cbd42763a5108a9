use particle_life::fixed::{wrap_delta, ONE};
use particle_life::matrix::InteractionMatrix;
use particle_life::rng::Generator;
use particle_life::sim::Simulation;
use particle_life::state::{Config, Particle};

fn config(width: i64, height: i64, radius: i64) -> Config {
    Config {
        width: width * ONE,
        height: height * ONE,
        radius: radius * ONE,
        friction: 800_000,
        force_scale: ONE,
    }
}

fn at(x: i64, y: i64, color: usize) -> Particle {
    Particle { x, y, vx: 0, vy: 0, color }
}

fn uniform(colors: usize, a: i64) -> InteractionMatrix {
    InteractionMatrix::from_rows(vec![vec![a; colors]; colors]).unwrap()
}

fn particles(sim: &Simulation) -> Vec<Particle> {
    (0..sim.len()).map(|i| sim.particle(i)).collect()
}

fn same(a: &Particle, b: &Particle) -> bool {
    a == b
}

const DT: i64 = 22_222;

#[test]
fn config_validity() {
    assert!(config(100, 100, 80).is_valid());
    assert!(!Config { width: 0, ..config(100, 100, 80) }.is_valid());
    assert!(!Config { height: 0, ..config(100, 100, 80) }.is_valid());
    assert!(!Config { radius: 0, ..config(100, 100, 80) }.is_valid());
    assert!(!Config { width: -1, ..config(100, 100, 80) }.is_valid());
    assert!(!Config { height: -5, ..config(100, 100, 80) }.is_valid());
    assert!(!Config { radius: -80, ..config(100, 100, 80) }.is_valid());
    assert!(Config { width: 1, height: 1, radius: 1, friction: -3, force_scale: i64::MIN }
        .is_valid());
}

#[test]
fn from_parts_keeps_the_particles() {
    let given = vec![
        Particle { x: 1, y: 2, vx: 3, vy: -4, color: 1 },
        Particle { x: 99_999_999, y: 0, vx: i64::MAX, vy: i64::MIN, color: 0 },
    ];
    let sim = Simulation::from_parts(config(100, 100, 80), given.clone(), uniform(2, 0)).unwrap();
    assert_eq!(sim.len(), 2);
    for i in 0..2 {
        assert!(same(&sim.particle(i), &given[i]));
    }
    assert_eq!(sim.config().width, 100 * ONE);
    assert_eq!(sim.config().radius, 80 * ONE);
    assert_eq!(sim.matrix().colors(), 2);
}

#[test]
fn from_parts_accepts_no_particles() {
    let sim = Simulation::from_parts(config(100, 100, 80), Vec::new(), uniform(0, 0)).unwrap();
    assert_eq!(sim.len(), 0);
}

#[test]
fn from_parts_rejects_an_invalid_configuration() {
    let c = Config { width: 0, ..config(100, 100, 80) };
    assert!(Simulation::from_parts(c, Vec::new(), uniform(1, 0)).is_none());
    let c = Config { radius: -1, ..config(100, 100, 80) };
    assert!(Simulation::from_parts(c, Vec::new(), uniform(1, 0)).is_none());
}

#[test]
fn from_parts_rejects_a_position_outside_the_domain() {
    let c = config(100, 50, 80);
    for (x, y) in [(-1, 0), (0, -1), (100 * ONE, 0), (0, 50 * ONE), (i64::MAX, 0), (0, i64::MIN)] {
        assert!(Simulation::from_parts(c, vec![at(0, 0, 0), at(x, y, 0)], uniform(1, 0)).is_none());
    }
    assert!(Simulation::from_parts(c, vec![at(100 * ONE - 1, 50 * ONE - 1, 0)], uniform(1, 0))
        .is_some());
}

#[test]
fn from_parts_rejects_a_colour_outside_the_matrix() {
    let c = config(100, 100, 80);
    assert!(Simulation::from_parts(c, vec![at(0, 0, 2)], uniform(2, 0)).is_none());
    assert!(Simulation::from_parts(c, vec![at(0, 0, 0)], uniform(0, 0)).is_none());
    assert!(Simulation::from_parts(c, vec![at(0, 0, 1)], uniform(2, 0)).is_some());
}

#[test]
fn initialize_places_particles_inside_the_domain() {
    let mut rng = Generator::with_seed(11);
    let c = config(1280, 720, 80);
    let sim = Simulation::initialize(c, 500, 5, &mut rng);
    assert_eq!(sim.len(), 500);
    assert_eq!(sim.matrix().colors(), 5);
    for p in particles(&sim) {
        assert!(0 <= p.x && p.x < c.width);
        assert!(0 <= p.y && p.y < c.height);
        assert!(p.color < 5);
        assert_eq!(p.vx, 0);
        assert_eq!(p.vy, 0);
    }
}

#[test]
fn initialize_spreads_the_particles() {
    let mut rng = Generator::with_seed(12);
    let c = config(1280, 720, 80);
    let all = particles(&Simulation::initialize(c, 500, 5, &mut rng));
    assert!(all.iter().any(|p| p.x != all[0].x));
    assert!(all.iter().any(|p| p.y != all[0].y));
    assert!(all.iter().any(|p| p.x > c.width / 2));
    assert!(all.iter().any(|p| p.x < c.width / 2));
    assert!(all.iter().any(|p| p.y > c.height / 2));
    assert!(all.iter().any(|p| p.y < c.height / 2));
    for color in 0..5 {
        assert!(all.iter().any(|p| p.color == color));
    }
}

#[test]
fn initialize_follows_the_seed() {
    let c = config(1280, 720, 80);
    let a = Simulation::initialize(c, 100, 4, &mut Generator::with_seed(5));
    let b = Simulation::initialize(c, 100, 4, &mut Generator::with_seed(5));
    let d = Simulation::initialize(c, 100, 4, &mut Generator::with_seed(6));
    assert!(particles(&a).iter().zip(particles(&b).iter()).all(|(p, q)| same(p, q)));
    assert!(!particles(&a).iter().zip(particles(&d).iter()).all(|(p, q)| same(p, q)));
}

#[test]
fn initialize_on_the_smallest_domain() {
    let mut rng = Generator::with_seed(13);
    let c = Config { width: 1, height: 1, radius: 1, friction: 0, force_scale: 0 };
    let sim = Simulation::initialize(c, 10, 1, &mut rng);
    for p in particles(&sim) {
        assert_eq!((p.x, p.y, p.color), (0, 0, 0));
    }
}

#[test]
fn initialize_without_particles() {
    let mut rng = Generator::with_seed(14);
    let mut sim = Simulation::initialize(config(100, 100, 80), 0, 3, &mut rng);
    assert_eq!(sim.len(), 0);
    sim.step(DT);
    assert_eq!(sim.len(), 0);
}

#[test]
fn reset_matrix_changes_the_matrix_and_nothing_else() {
    let mut rng = Generator::with_seed(21);
    let mut sim = Simulation::initialize(config(1280, 720, 80), 50, 5, &mut rng);
    let before = particles(&sim);
    let read = |sim: &Simulation| -> Vec<i64> {
        let mut all = Vec::new();
        for i in 0..5 {
            for j in 0..5 {
                all.push(sim.matrix().get(i, j));
            }
        }
        all
    };
    let first = read(&sim);
    sim.reset_matrix(&mut rng);
    let second = read(&sim);
    sim.reset_matrix(&mut rng);
    let third = read(&sim);
    assert_ne!(first, second);
    assert_ne!(second, third);
    assert_ne!(first, third);
    for a in second.iter().chain(third.iter()) {
        assert!(-ONE <= *a && *a <= ONE);
    }
    assert_eq!(sim.matrix().colors(), 5);
    assert!(particles(&sim).iter().zip(before.iter()).all(|(p, q)| same(p, q)));
}

#[test]
fn reset_matrix_acts_from_the_next_step_on() {
    let c = config(100, 100, 80);
    let given = vec![at(10 * ONE, 50 * ONE, 0), at(30 * ONE, 50 * ONE, 0)];
    let mut rng = Generator::with_seed(22);
    let mut sim = Simulation::from_parts(c, given.clone(), uniform(1, 0)).unwrap();
    sim.step(DT);
    assert!(particles(&sim).iter().zip(given.iter()).all(|(p, q)| same(p, q)));
    sim.reset_matrix(&mut rng);
    let a = sim.matrix().get(0, 0);
    assert_ne!(a, 0);
    sim.step(DT);
    let p = sim.particle(0);
    assert_eq!(p.vx.signum(), a.signum());
}

#[test]
fn two_particles_of_one_colour_attract() {
    let c = config(100, 100, 80);
    let given = vec![at(10 * ONE, 50 * ONE, 0), at(30 * ONE, 50 * ONE, 0)];
    let mut sim = Simulation::from_parts(c, given, uniform(1, ONE)).unwrap();
    // normalised distance 20 / 80 = 0.25, beyond the margin: the pull is
    // 1 * (1 - |0.5 - 1.2| / 0.8) = 0.125 along x
    assert_eq!(sim.pull(0, 1), (125_000, 0));
    assert_eq!(sim.pull(1, 0), (-125_000, 0));
    sim.step(DT);
    let p = sim.particle(0);
    let q = sim.particle(1);
    // the single cell of the grid is reported nine times: 9 * 0.125 * 80 = 90,
    // 90 * 0.022222 = 1.99998, 1.99998 * 0.022222 = 0.044443
    assert_eq!((p.vx, p.vy), (1_999_980, 0));
    assert_eq!((q.vx, q.vy), (-1_999_980, 0));
    assert_eq!((p.x, p.y), (10_044_443, 50 * ONE));
    assert_eq!((q.x, q.y), (29_955_557, 50 * ONE));
    assert!(p.x > 10 * ONE && q.x < 30 * ONE);
    assert!(p.vx > 0 && q.vx < 0);
}

#[test]
fn two_particles_attract_on_a_grid_of_many_cells() {
    let c = config(800, 800, 80);
    let given = vec![at(410 * ONE, 400 * ONE, 0), at(430 * ONE, 400 * ONE, 0)];
    let mut sim = Simulation::from_parts(c, given, uniform(1, ONE)).unwrap();
    sim.step(DT);
    let p = sim.particle(0);
    let q = sim.particle(1);
    // each particle is reported once: 0.125 * 80 = 10, 10 * 0.022222 = 0.22222
    assert_eq!((p.vx, p.vy), (222_220, 0));
    assert_eq!((q.vx, q.vy), (-222_220, 0));
    assert_eq!(p.x, 410 * ONE + 4_938);
    assert_eq!(q.x, 430 * ONE - 4_938);
}

#[test]
fn two_particles_within_the_margin_repel() {
    let c = config(800, 800, 80);
    // 8 / 80 = 0.1: the repulsion is 0.1 / 0.2 - 1 = -0.5, whatever the affinity
    for a in [ONE, 0, -ONE] {
        let given = vec![at(400 * ONE, 400 * ONE, 0), at(400 * ONE, 408 * ONE, 0)];
        let mut sim = Simulation::from_parts(c, given, uniform(1, a)).unwrap();
        assert_eq!(sim.pull(0, 1), (0, -500_000));
        assert_eq!(sim.pull(1, 0), (0, 500_000));
        sim.step(DT);
        assert!(sim.particle(0).vy < 0);
        assert!(sim.particle(1).vy > 0);
        assert_eq!(sim.particle(0).vx, 0);
    }
}

#[test]
fn particles_beyond_the_radius_do_not_interact() {
    let c = config(800, 800, 80);
    let given = vec![at(100 * ONE, 100 * ONE, 0), at(180 * ONE, 100 * ONE, 0)];
    let mut sim = Simulation::from_parts(c, given.clone(), uniform(1, ONE)).unwrap();
    assert_eq!(sim.pull(0, 1), (0, 0));
    sim.step(DT);
    assert!(particles(&sim).iter().zip(given.iter()).all(|(p, q)| same(p, q)));
}

#[test]
fn particles_at_the_same_place_do_not_interact() {
    let c = config(800, 800, 80);
    let given = vec![at(100 * ONE, 100 * ONE, 0), at(100 * ONE, 100 * ONE, 0)];
    let mut sim = Simulation::from_parts(c, given.clone(), uniform(1, ONE)).unwrap();
    assert_eq!(sim.pull(0, 1), (0, 0));
    sim.step(DT);
    assert!(particles(&sim).iter().zip(given.iter()).all(|(p, q)| same(p, q)));
}

#[test]
fn pull_ignores_the_particle_itself_and_strangers() {
    let c = config(800, 800, 80);
    let given = vec![at(100 * ONE, 100 * ONE, 0), at(110 * ONE, 100 * ONE, 0)];
    let sim = Simulation::from_parts(c, given, uniform(1, ONE)).unwrap();
    assert_eq!(sim.pull(0, 0), (0, 0));
    assert_eq!(sim.pull(1, 1), (0, 0));
    assert_eq!(sim.pull(0, 2), (0, 0));
    assert_eq!(sim.pull(0, usize::MAX), (0, 0));
}

#[test]
fn pull_points_along_the_line_between_the_particles() {
    let c = config(800, 800, 100);
    // a 3-4-5 triangle: distance 50, normalised 0.5
    let given = vec![at(400 * ONE, 400 * ONE, 0), at(430 * ONE, 440 * ONE, 0)];
    let sim = Simulation::from_parts(c, given, uniform(1, ONE)).unwrap();
    // the pulse at 0.5 is 1 - 0.2 / 0.8 = 0.75
    assert_eq!(sim.pull(0, 1), (450_000, 600_000));
    assert_eq!(sim.pull(1, 0), (-450_000, -600_000));
}

#[test]
fn pull_reaches_over_the_seam() {
    let c = config(800, 800, 80);
    let given = vec![at(ONE, 400 * ONE, 0), at(799 * ONE, 400 * ONE, 0)];
    let mut sim = Simulation::from_parts(c, given, uniform(1, ONE)).unwrap();
    // two units apart over the seam: 2 / 80 = 0.025, the repulsion is -0.875
    assert_eq!(sim.pull(0, 1), (875_000, 0));
    assert_eq!(sim.pull(1, 0), (-875_000, 0));
    sim.step(DT);
    assert!(sim.particle(0).vx > 0);
    assert!(sim.particle(1).vx < 0);
}

#[test]
fn an_asymmetric_matrix_gives_forces_of_different_magnitude() {
    let c = config(800, 800, 80);
    let matrix = InteractionMatrix::from_rows(vec![vec![0, 700_000], vec![-300_000, 0]]).unwrap();
    let given = vec![at(400 * ONE, 400 * ONE, 0), at(440 * ONE, 400 * ONE, 1)];
    let mut sim = Simulation::from_parts(c, given, matrix).unwrap();
    // 40 / 80 = 0.5, where the pulse is 0.75
    assert_eq!(sim.pull(0, 1), (525_000, 0));
    assert_eq!(sim.pull(1, 0), (225_000, 0));
    sim.step(DT);
    let p = sim.particle(0);
    let q = sim.particle(1);
    assert_ne!(p.vx.abs(), q.vx.abs());
    // class 0 chases class 1, which flees
    assert!(p.vx > 0 && q.vx > 0);
}

#[test]
fn a_lone_particle_at_rest_stays() {
    let c = config(100, 100, 80);
    let given = vec![at(50 * ONE, 50 * ONE, 0)];
    let mut sim = Simulation::from_parts(c, given.clone(), uniform(1, ONE)).unwrap();
    let grid = sim.build_grid();
    assert_eq!(sim.force_on(&grid, 0), (0, 0));
    sim.step(DT);
    assert!(same(&sim.particle(0), &given[0]));
}

#[test]
fn a_lone_particle_in_motion_decays_by_the_friction() {
    let c = config(100, 100, 80);
    let given = vec![Particle { x: 50 * ONE, y: 50 * ONE, vx: ONE, vy: -500_000, color: 0 }];
    let mut sim = Simulation::from_parts(c, given, uniform(1, ONE)).unwrap();
    let grid = sim.build_grid();
    assert_eq!(sim.force_on(&grid, 0), (0, 0));
    sim.step(DT);
    let p = sim.particle(0);
    assert_eq!((p.vx, p.vy), (800_000, -400_000));
    // 0.8 * 0.022222 = 0.0177776, -0.4 * 0.022222 = -0.0088888
    assert_eq!((p.x, p.y), (50 * ONE + 17_777, 50 * ONE - 8_888));
    sim.step(DT);
    let p = sim.particle(0);
    assert_eq!((p.vx, p.vy), (640_000, -320_000));
}

#[test]
fn a_particle_that_leaves_the_domain_comes_back_on_the_other_side() {
    let c = config(100, 100, 80);
    let given = vec![Particle { x: 100 * ONE - 1, y: 0, vx: 10 * ONE, vy: -10 * ONE, color: 0 }];
    let mut sim = Simulation::from_parts(c, given, uniform(1, ONE)).unwrap();
    sim.step(ONE);
    let p = sim.particle(0);
    assert_eq!((p.vx, p.vy), (8 * ONE, -8 * ONE));
    assert_eq!((p.x, p.y), (8 * ONE - 1, 92 * ONE));
}

#[test]
fn a_fast_particle_wraps_around_many_times() {
    let c = config(100, 100, 80);
    let given = vec![Particle { x: 0, y: 0, vx: i64::MAX, vy: i64::MIN, color: 0 }];
    let mut sim = Simulation::from_parts(c, given, uniform(1, ONE)).unwrap();
    for _ in 0..5 {
        sim.step(i64::MAX);
        let p = sim.particle(0);
        assert!(0 <= p.x && p.x < c.width);
        assert!(0 <= p.y && p.y < c.height);
    }
}

#[test]
fn a_step_of_no_duration_moves_nothing() {
    let c = config(100, 100, 80);
    let given = vec![
        Particle { x: 10 * ONE, y: 50 * ONE, vx: ONE, vy: ONE, color: 0 },
        at(30 * ONE, 50 * ONE, 0),
    ];
    let mut sim = Simulation::from_parts(c, given, uniform(1, ONE)).unwrap();
    sim.step(0);
    let p = sim.particle(0);
    assert_eq!((p.x, p.y), (10 * ONE, 50 * ONE));
    assert_eq!((p.vx, p.vy), (800_000, 800_000));
}

#[test]
fn a_step_back_in_time_is_accepted() {
    let mut rng = Generator::with_seed(31);
    let c = config(300, 200, 40);
    let mut sim = Simulation::initialize(c, 200, 3, &mut rng);
    sim.step(-DT);
    sim.step(i64::MIN);
    for p in particles(&sim) {
        assert!(0 <= p.x && p.x < c.width);
        assert!(0 <= p.y && p.y < c.height);
    }
}

#[test]
fn positions_stay_inside_the_domain() {
    let mut rng = Generator::with_seed(32);
    let c = Config { force_scale: 2 * ONE, ..config(320, 180, 40) };
    let mut sim = Simulation::initialize(c, 300, 5, &mut rng);
    let mut moved = false;
    for _ in 0..30 {
        let before = particles(&sim);
        sim.step(DT);
        let after = particles(&sim);
        assert_eq!(after.len(), 300);
        for (p, q) in before.iter().zip(after.iter()) {
            assert!(0 <= q.x && q.x < c.width);
            assert!(0 <= q.y && q.y < c.height);
            assert_eq!(p.color, q.color);
            moved = moved || p.x != q.x || p.y != q.y;
        }
    }
    assert!(moved);
}

#[test]
fn positions_stay_inside_a_domain_that_is_no_multiple_of_the_radius() {
    let mut rng = Generator::with_seed(33);
    let c = Config { force_scale: 3 * ONE, ..config(250, 170, 80) };
    let mut sim = Simulation::initialize(c, 150, 4, &mut rng);
    for _ in 0..30 {
        sim.step(DT);
        for p in particles(&sim) {
            assert!(0 <= p.x && p.x < c.width);
            assert!(0 <= p.y && p.y < c.height);
        }
    }
}

#[test]
fn the_grid_misses_no_neighbour() {
    for (seed, w, h, r) in
        [(41u64, 320i64, 180i64, 40i64), (42, 250, 170, 80), (43, 100, 100, 80), (44, 90, 200, 30)]
    {
        let mut rng = Generator::with_seed(seed);
        let c = config(w, h, r);
        let mut sim = Simulation::initialize(c, 120, 3, &mut rng);
        for _ in 0..3 {
            let grid = sim.build_grid();
            let all = particles(&sim);
            for i in 0..all.len() {
                let near = grid.query(all[i].x, all[i].y);
                assert!(near.iter().all(|j| *j < all.len()));
                for j in 0..all.len() {
                    let dx = wrap_delta(all[j].x - all[i].x, c.width) as i128;
                    let dy = wrap_delta(all[j].y - all[i].y, c.height) as i128;
                    if dx * dx + dy * dy < (c.radius as i128) * (c.radius as i128) {
                        assert!(near.contains(&j), "{} misses {}", i, j);
                    }
                }
            }
            sim.step(DT);
        }
    }
}

#[test]
fn the_grid_holds_every_particle_once() {
    let mut rng = Generator::with_seed(45);
    let c = config(320, 180, 40);
    let sim = Simulation::initialize(c, 200, 3, &mut rng);
    let grid = sim.build_grid();
    assert_eq!(grid.cell_size(), c.radius);
    assert_eq!(grid.cols(), 8);
    assert_eq!(grid.rows(), 4);
    let mut seen = vec![0usize; 200];
    // one query per block of three by three cells covers the grid without overlap
    for bx in 0..3i64 {
        for by in 0..2i64 {
            let x = (bx * 3 + 1) * c.radius;
            let y = (by * 3 + 1) * c.radius;
            let near = grid.query(x.min(c.width - 1), y.min(c.height - 1));
            for j in near {
                seen[j] += 1;
            }
        }
    }
    assert!(seen.iter().all(|n| *n >= 1));
}

#[test]
fn a_step_is_grid_then_forces_then_integration() {
    let mut rng = Generator::with_seed(51);
    let c = Config { force_scale: 2 * ONE, ..config(320, 180, 40) };
    let mut whole = Simulation::initialize(c, 150, 4, &mut rng);
    let mut rows = Vec::new();
    for i in 0..4 {
        let mut row = Vec::new();
        for j in 0..4 {
            row.push(whole.matrix().get(i, j));
        }
        rows.push(row);
    }
    let matrix = InteractionMatrix::from_rows(rows).unwrap();
    let mut parts = Simulation::from_parts(c, particles(&whole), matrix).unwrap();
    for _ in 0..5 {
        whole.step(DT);
        let grid = parts.build_grid();
        let forces = parts.forces(&grid);
        let one_by_one: Vec<(i64, i64)> =
            (0..parts.len()).map(|i| parts.force_on(&grid, i)).collect();
        assert_eq!(forces, one_by_one);
        parts.integrate(&forces, DT);
        assert!(particles(&whole).iter().zip(particles(&parts).iter()).all(|(p, q)| same(p, q)));
    }
    assert!(particles(&whole).iter().any(|p| p.vx != 0 || p.vy != 0));
}

#[test]
fn integrate_applies_the_given_forces() {
    let c = config(100, 100, 80);
    let given = vec![at(10 * ONE, 20 * ONE, 0), at(30 * ONE, 40 * ONE, 0)];
    let mut sim = Simulation::from_parts(c, given, uniform(1, 0)).unwrap();
    sim.integrate(&vec![(ONE, 0), (0, -2 * ONE)], 500_000);
    let p = sim.particle(0);
    let q = sim.particle(1);
    assert_eq!((p.vx, p.vy), (500_000, 0));
    assert_eq!((p.x, p.y), (10 * ONE + 250_000, 20 * ONE));
    assert_eq!((q.vx, q.vy), (0, -ONE));
    assert_eq!((q.x, q.y), (30 * ONE, 40 * ONE - 500_000));
}

#[test]
fn integrate_saturates_the_velocity() {
    let c = Config { friction: ONE, ..config(100, 100, 80) };
    let given = vec![Particle { x: 0, y: 0, vx: i64::MAX, vy: i64::MIN, color: 0 }];
    let mut sim = Simulation::from_parts(c, given, uniform(1, 0)).unwrap();
    sim.integrate(&vec![(i64::MAX, i64::MIN)], ONE);
    let p = sim.particle(0);
    assert_eq!((p.vx, p.vy), (i64::MAX, i64::MIN));
    assert!(0 <= p.x && p.x < c.width);
    assert!(0 <= p.y && p.y < c.height);
}

#[test]
fn force_on_scales_by_radius_and_force_scale() {
    let c = Config { force_scale: 2 * ONE, ..config(800, 800, 80) };
    let given = vec![
        at(400 * ONE, 400 * ONE, 0),
        at(420 * ONE, 400 * ONE, 0),
        at(400 * ONE, 380 * ONE, 0),
    ];
    let sim = Simulation::from_parts(c, given, uniform(1, ONE)).unwrap();
    let grid = sim.build_grid();
    // each neighbour pulls with 0.125; 0.125 * 80 * 2 = 20
    assert_eq!(sim.force_on(&grid, 0), (20 * ONE, -20 * ONE));
}

#[test]
fn force_on_with_a_grid_of_strangers() {
    let c = config(800, 800, 80);
    let given = vec![at(400 * ONE, 400 * ONE, 0), at(420 * ONE, 400 * ONE, 0)];
    let sim = Simulation::from_parts(c, given, uniform(1, ONE)).unwrap();
    let mut grid = particle_life::grid::Grid::new(c.radius, c.width, c.height);
    grid.insert(7, 400 * ONE, 400 * ONE);
    grid.insert(1, 400 * ONE, 400 * ONE);
    grid.insert(1, 400 * ONE, 400 * ONE);
    // the stranger counts for nothing, the neighbour that is listed twice counts twice
    assert_eq!(sim.force_on(&grid, 0), (20 * ONE, 0));
}

#[test]
fn resize_wraps_positions_into_the_new_domain() {
    let c = config(100, 100, 80);
    let given = vec![
        Particle { x: 90 * ONE, y: 10 * ONE, vx: 5, vy: -6, color: 0 },
        Particle { x: 30 * ONE, y: 70 * ONE, vx: 0, vy: 0, color: 1 },
    ];
    let mut sim = Simulation::from_parts(c, given, uniform(2, 250_000)).unwrap();
    sim.resize(40 * ONE, 200 * ONE);
    assert_eq!(sim.config().width, 40 * ONE);
    assert_eq!(sim.config().height, 200 * ONE);
    assert_eq!(sim.config().radius, 80 * ONE);
    assert_eq!(sim.config().friction, 800_000);
    assert_eq!(sim.config().force_scale, ONE);
    let p = sim.particle(0);
    let q = sim.particle(1);
    assert_eq!((p.x, p.y, p.vx, p.vy, p.color), (10 * ONE, 10 * ONE, 5, -6, 0));
    assert_eq!((q.x, q.y, q.vx, q.vy, q.color), (30 * ONE, 70 * ONE, 0, 0, 1));
    assert_eq!(sim.matrix().get(1, 0), 250_000);
    sim.step(DT);
    for p in particles(&sim) {
        assert!(0 <= p.x && p.x < 40 * ONE);
        assert!(0 <= p.y && p.y < 200 * ONE);
    }
}

#[test]
fn set_matrix_puts_the_given_matrix_in_place() {
    let c = config(800, 800, 80);
    let given = vec![at(400 * ONE, 400 * ONE, 0), at(440 * ONE, 400 * ONE, 1)];
    let mut sim = Simulation::from_parts(c, given.clone(), uniform(2, 0)).unwrap();
    let matrix = InteractionMatrix::from_rows(vec![vec![1, 2], vec![-3, 4]]).unwrap();
    assert!(sim.set_matrix(matrix));
    assert_eq!(sim.matrix().colors(), 2);
    assert_eq!(sim.matrix().get(0, 0), 1);
    assert_eq!(sim.matrix().get(0, 1), 2);
    assert_eq!(sim.matrix().get(1, 0), -3);
    assert_eq!(sim.matrix().get(1, 1), 4);
    assert_eq!(particles(&sim), given);
    assert_eq!(sim.config(), c);
}

#[test]
fn set_matrix_refuses_a_matrix_of_another_size() {
    let c = config(800, 800, 80);
    let given = vec![at(400 * ONE, 400 * ONE, 0), at(440 * ONE, 400 * ONE, 1)];
    let mut sim = Simulation::from_parts(c, given.clone(), uniform(2, 500_000)).unwrap();
    assert!(!sim.set_matrix(uniform(1, ONE)));
    assert!(!sim.set_matrix(uniform(3, ONE)));
    assert!(!sim.set_matrix(uniform(0, ONE)));
    assert_eq!(sim.matrix().colors(), 2);
    for i in 0..2 {
        for j in 0..2 {
            assert_eq!(sim.matrix().get(i, j), 500_000);
        }
    }
    assert_eq!(particles(&sim), given);
}

#[test]
fn set_matrix_acts_from_the_next_step_on() {
    let c = config(800, 800, 80);
    let given = vec![at(400 * ONE, 400 * ONE, 0), at(440 * ONE, 400 * ONE, 0)];
    let mut sim = Simulation::from_parts(c, given.clone(), uniform(1, 0)).unwrap();
    sim.step(DT);
    assert_eq!(particles(&sim), given);
    assert!(sim.set_matrix(uniform(1, -ONE)));
    assert_eq!(particles(&sim), given);
    sim.step(DT);
    // 40 / 80 = 0.5, where the pulse is 0.75: -0.75 * 80 = -60, -60 * 0.022222 = -1.33332
    assert_eq!(sim.particle(0).vx, -1_333_320);
    assert_eq!(sim.particle(1).vx, 1_333_320);
}

#[test]
fn initialize_draws_the_matrix_then_the_positions_then_the_colours() {
    let c = config(1280, 720, 80);
    let mut theirs = fastrand::Rng::with_seed(8);
    let mut ours = Generator::with_seed(8);
    let sim = Simulation::initialize(c, 50, 3, &mut ours);
    for x in 0..3 {
        for y in 0..3 {
            assert_eq!(sim.matrix().get(x, y), theirs.i64(-ONE..=ONE));
        }
    }
    for i in 0..50 {
        let p = sim.particle(i);
        assert_eq!(p.x, theirs.i64(0..=c.width - 1));
        assert_eq!(p.y, theirs.i64(0..=c.height - 1));
    }
    for i in 0..50 {
        assert_eq!(sim.particle(i).color, theirs.usize(0..3));
    }
    assert_eq!(ours.seed(), theirs.get_seed());
}

#[test]
fn reset_matrix_overwrites_every_entry_with_its_own_draw() {
    let c = config(1280, 720, 80);
    let mut ours = Generator::with_seed(9);
    let mut sim = Simulation::initialize(c, 20, 4, &mut ours);
    let before = particles(&sim);
    let mut theirs = fastrand::Rng::with_seed(ours.seed());
    for _ in 0..2 {
        sim.reset_matrix(&mut ours);
        let drawn: Vec<i64> = (0..16).map(|_| theirs.i64(-ONE..=ONE)).collect();
        for x in 0..4 {
            for y in 0..4 {
                assert_eq!(sim.matrix().get(x, y), drawn[4 * x + y]);
            }
        }
        assert_eq!(ours.seed(), theirs.get_seed());
        assert_eq!(particles(&sim), before);
        assert_eq!(sim.config(), c);
    }
}
