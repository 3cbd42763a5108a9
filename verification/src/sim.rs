//! The simulation: the particles, their interaction matrix, and the step that
//! moves them.
use vstd::prelude::*;
use crate::fixed::{
    isqrt, lemma_floor_div, lemma_sqrt_dominates, lemma_sqrt_within, lemma_tdiv_ratio, magnitude,
    saturate, tdiv, times, wrap, wrap_delta, ONE,
};
use crate::force::{force, lemma_force_bounded};
use crate::grid::Grid;
use crate::matrix::{drawn_table, state_after_table, InteractionMatrix};
use crate::rng::Generator;
use crate::state::{nth_place, state_after_places};
use crate::state::{Config, Particle, State};

verus! {

/// A population of particles on a torus. The particles are held as parallel
/// arrays: one entry of each array belongs to each particle.
pub struct Simulation {
    config: Config,
    pos_x: Vec<i64>,
    pos_y: Vec<i64>,
    vel_x: Vec<i64>,
    vel_y: Vec<i64>,
    colors: Vec<usize>,
    matrix: InteractionMatrix,
}

impl View for Simulation {
    type V = State;

    closed spec fn view(&self) -> State {
        State {
            config: self.config,
            particles: Seq::new(
                self.pos_x@.len(),
                |i: int|
                    Particle {
                        x: self.pos_x@[i],
                        y: self.pos_y@[i],
                        vx: self.vel_x@[i],
                        vy: self.vel_y@[i],
                        color: self.colors@[i],
                    },
            ),
            matrix: self.matrix@,
        }
    }
}

impl Simulation {
    /// Whether the parallel arrays have one entry each for every particle.
    pub closed spec fn aligned(&self) -> bool {
        &&& self.pos_y@.len() == self.pos_x@.len()
        &&& self.vel_x@.len() == self.pos_x@.len()
        &&& self.vel_y@.len() == self.pos_x@.len()
        &&& self.colors@.len() == self.pos_x@.len()
    }

    /// A simulation is well formed when its arrays are aligned and its state
    /// is valid.
    pub open spec fn wf(&self) -> bool {
        self.aligned() && self@.wf()
    }

    /// The number of particles.
    pub fn len(&self) -> (n: usize)
        ensures
            n == self@.particles.len(),
    {
        self.pos_x.len()
    }

    /// The parameters of the run.
    pub fn config(&self) -> (config: Config)
        ensures
            config == self@.config,
    {
        self.config
    }

    /// The interaction matrix.
    pub fn matrix(&self) -> (matrix: &InteractionMatrix)
        ensures
            matrix@ == self@.matrix,
    {
        &self.matrix
    }

    /// Particle `i`.
    pub fn particle(&self, i: usize) -> (p: Particle)
        requires
            self.wf(),
            i < self@.particles.len(),
        ensures
            p == self@.particles[i as int],
    {
        Particle {
            x: self.pos_x[i],
            y: self.pos_y[i],
            vx: self.vel_x[i],
            vy: self.vel_y[i],
            color: self.colors[i],
        }
    }

    /// The simulation of the given particles under the given matrix, if they
    /// make a valid state: the configuration is valid, every position lies
    /// inside the domain and every colour class is one of the matrix.
    pub fn from_parts(config: Config, particles: Vec<Particle>, matrix: InteractionMatrix) -> (res:
        Option<Simulation>)
        requires
            matrix.wf(),
        ensures
            res.is_some() <==> (State { config, particles: particles@, matrix: matrix@ }).wf(),
            res.is_some() ==> res.unwrap().wf() && res.unwrap()@ == (State {
                config,
                particles: particles@,
                matrix: matrix@,
            }),
    {
        let ghost target = State { config, particles: particles@, matrix: matrix@ };
        if !config.is_valid() {
            return None;
        }
        let colors: usize = matrix.colors();
        let mut pos_x: Vec<i64> = Vec::new();
        let mut pos_y: Vec<i64> = Vec::new();
        let mut vel_x: Vec<i64> = Vec::new();
        let mut vel_y: Vec<i64> = Vec::new();
        let mut classes: Vec<usize> = Vec::new();
        let mut i: usize = 0;
        while i < particles.len()
            invariant
                0 <= i <= particles@.len(),
                target == (State { config, particles: particles@, matrix: matrix@ }),
                colors == matrix@.len(),
                pos_x@.len() == i,
                pos_y@.len() == i,
                vel_x@.len() == i,
                vel_y@.len() == i,
                classes@.len() == i,
                forall|k: int|
                    0 <= k < i ==> {
                        &&& target.admits(#[trigger] particles@[k])
                        &&& pos_x@[k] == particles@[k].x
                        &&& pos_y@[k] == particles@[k].y
                        &&& vel_x@[k] == particles@[k].vx
                        &&& vel_y@[k] == particles@[k].vy
                        &&& classes@[k] == particles@[k].color
                    },
            decreases particles@.len() - i,
        {
            let p: Particle = particles[i];
            if p.x < 0 || p.x >= config.width || p.y < 0 || p.y >= config.height || p.color
                >= colors {
                assert(!target.admits(target.particles[i as int]));
                return None;
            }
            pos_x.push(p.x);
            pos_y.push(p.y);
            vel_x.push(p.vx);
            vel_y.push(p.vy);
            classes.push(p.color);
            i += 1;
        }
        let sim = Simulation { config, pos_x, pos_y, vel_x, vel_y, colors: classes, matrix };
        assert(sim@.particles =~= particles@);
        Some(sim)
    }

    /// A simulation of `n` particles over `colors` colour classes, drawn from
    /// `rng`: first the matrix, row by row; then for each particle in turn a
    /// position in the domain, x before y; then for each particle in turn a
    /// colour class. Every particle is at rest.
    pub fn initialize(config: Config, n: usize, colors: usize, rng: &mut Generator) -> (sim:
        Simulation)
        requires
            config.wf(),
            colors > 0,
        ensures
            sim.wf(),
            sim@.config == config,
            sim@.particles.len() == n,
            sim@.matrix == drawn_table(old(rng)@, colors as nat),
            forall|i: int|
                0 <= i < n ==> ((#[trigger] sim@.particles[i]).x, sim@.particles[i].y) == nth_place(
                    state_after_table(old(rng)@, colors as nat),
                    config.width,
                    config.height,
                    i as nat,
                ),
            forall|i: int|
                0 <= i < n ==> (#[trigger] sim@.particles[i]).vx == 0 && sim@.particles[i].vy == 0
                    && sim@.particles[i].color < colors,
    {
        let matrix = InteractionMatrix::random(colors, rng);
        let ghost start = rng@;
        let mut pos_x: Vec<i64> = Vec::new();
        let mut pos_y: Vec<i64> = Vec::new();
        let mut vel_x: Vec<i64> = Vec::new();
        let mut vel_y: Vec<i64> = Vec::new();
        let mut classes: Vec<usize> = Vec::new();
        let mut i: usize = 0;
        while i < n
            invariant
                0 <= i <= n,
                config.wf(),
                pos_x@.len() == i,
                pos_y@.len() == i,
                vel_x@.len() == i,
                vel_y@.len() == i,
                rng@ == state_after_places(start, config.width, config.height, i as nat),
                forall|k: int|
                    0 <= k < i ==> {
                        let drawn = nth_place(start, config.width, config.height, k as nat);
                        &&& #[trigger] pos_x@[k] == drawn.0
                        &&& pos_y@[k] == drawn.1
                        &&& 0 <= pos_x@[k] < config.width
                        &&& 0 <= pos_y@[k] < config.height
                        &&& vel_x@[k] == 0
                        &&& vel_y@[k] == 0
                    },
            decreases n - i,
        {
            let x: i64 = rng.draw(0, config.width - 1);
            let y: i64 = rng.draw(0, config.height - 1);
            pos_x.push(x);
            pos_y.push(y);
            vel_x.push(0);
            vel_y.push(0);
            i += 1;
        }
        let mut j: usize = 0;
        while j < n
            invariant
                0 <= j <= n,
                colors > 0,
                classes@.len() == j,
                forall|k: int| 0 <= k < j ==> #[trigger] classes@[k] < colors,
            decreases n - j,
        {
            let c: usize = rng.pick(colors);
            classes.push(c);
            j += 1;
        }
        let sim = Simulation { config, pos_x, pos_y, vel_x, vel_y, colors: classes, matrix };
        assert forall|k: int| 0 <= k < sim@.particles.len() implies sim@.admits(
            #[trigger] sim@.particles[k],
        ) by {
            assert(classes@[k] < colors);
            assert(pos_x@[k] == nth_place(start, config.width, config.height, k as nat).0);
        }
        assert forall|k: int| 0 <= k < n implies ((#[trigger] sim@.particles[k]).x, sim@.particles[k].y)
            == nth_place(start, config.width, config.height, k as nat) && sim@.particles[k].color
            < colors by {
            assert(classes@[k] < colors);
            assert(pos_x@[k] == nth_place(start, config.width, config.height, k as nat).0);
        }
        sim
    }

    /// Draws every entry of the interaction matrix afresh, row by row: the
    /// entry in row `x` and column `y` becomes draw number `x * colors + y`
    /// of `rng`, whatever it was before. The particles and the parameters
    /// stay as they are; the new affinities act from the next step on.
    pub fn reset_matrix(&mut self, rng: &mut Generator)
        requires
            old(self).wf(),
        ensures
            final(self).wf(),
            final(self)@ == (State {
                config: old(self)@.config,
                particles: old(self)@.particles,
                matrix: drawn_table(old(rng)@, old(self)@.matrix.len()),
            }),
            final(rng)@ == state_after_table(old(rng)@, old(self)@.matrix.len()),
    {
        let fresh = InteractionMatrix::random(self.matrix.colors(), rng);
        self.set_matrix(fresh);
    }

    /// Puts `matrix` in the place of the interaction matrix, if it is over as
    /// many colour classes as the matrix that it replaces, and says whether it
    /// did; a matrix of another size is refused and nothing changes. The
    /// particles and the parameters stay as they are; the new affinities act
    /// from the next step on.
    pub fn set_matrix(&mut self, matrix: InteractionMatrix) -> (done: bool)
        requires
            old(self).wf(),
            matrix.wf(),
        ensures
            final(self).wf(),
            done == (matrix@.len() == old(self)@.matrix.len()),
            final(self)@ == (State {
                config: old(self)@.config,
                particles: old(self)@.particles,
                matrix: if done {
                    matrix@
                } else {
                    old(self)@.matrix
                },
            }),
    {
        if matrix.colors() != self.matrix.colors() {
            return false;
        }
        self.matrix = matrix;
        assert(self@.particles =~= old(self)@.particles);
        assert forall|i: int| 0 <= i < self@.particles.len() implies self@.admits(
            #[trigger] self@.particles[i],
        ) by {
            assert(old(self)@.admits(old(self)@.particles[i]));
        }
        true
    }

    /// Moves the simulation onto a domain of new extents. Every position is
    /// wrapped into the new domain; velocities, colours and the matrix stay.
    pub fn resize(&mut self, width: i64, height: i64)
        requires
            old(self).wf(),
            width > 0,
            height > 0,
        ensures
            final(self).wf(),
            final(self)@ == old(self)@.resized(width, height),
    {
        let ghost start = self@;
        let n: usize = self.pos_x.len();
        self.config.width = width;
        self.config.height = height;
        let mut i: usize = 0;
        while i < n
            invariant
                start.wf(),
                start == old(self)@,
                self.aligned(),
                n == self.pos_x@.len(),
                n == start.particles.len(),
                0 <= i <= n,
                width > 0,
                height > 0,
                self@.config == start.resized(width, height).config,
                self@.matrix == start.matrix,
                forall|k: int|
                    0 <= k < i ==> #[trigger] self@.particles[k] == start.resized(
                        width,
                        height,
                    ).particles[k],
                forall|k: int| i <= k < n ==> #[trigger] self@.particles[k] == start.particles[k],
            decreases n - i,
        {
            let ghost before = self@;
            assert(before.particles[i as int] == start.particles[i as int]);
            let x: i64 = wrap(self.pos_x[i] as i128, width);
            let y: i64 = wrap(self.pos_y[i] as i128, height);
            self.pos_x[i] = x;
            self.pos_y[i] = y;
            assert forall|k: int| 0 <= k < n && k != i implies #[trigger] self@.particles[k]
                == before.particles[k] by {}
            i += 1;
        }
        assert(self@.particles =~= start.resized(width, height).particles);
        proof {
            let after = start.resized(width, height);
            assert forall|k: int| 0 <= k < after.particles.len() implies after.admits(
                #[trigger] after.particles[k],
            ) by {
                assert(start.admits(start.particles[k]));
                vstd::arithmetic::div_mod::lemma_mod_bound(
                    start.particles[k].x as int,
                    width as int,
                );
                vstd::arithmetic::div_mod::lemma_mod_bound(
                    start.particles[k].y as int,
                    height as int,
                );
            }
        }
    }

    /// The grid of a step from the current state: cells of the size of the
    /// interaction radius over the domain, each particle in the cell that
    /// holds it.
    pub fn build_grid(&self) -> (grid: Grid)
        requires
            self.wf(),
        ensures
            self@.is_grid(grid),
    {
        let mut grid = Grid::new(self.config.radius, self.config.width, self.config.height);
        let mut i: usize = 0;
        while i < self.pos_x.len()
            invariant
                self.wf(),
                0 <= i <= self.pos_x@.len(),
                grid.wf(),
                grid.cell_size() == self@.config.radius,
                grid.cols() == self@.cols(),
                grid.rows() == self@.rows(),
                forall|cx: int, cy: int| #[trigger]
                    grid.bucket(cx, cy) == self@.occupants(i as nat, cx, cy),
            decreases self.pos_x@.len() - i,
        {
            grid.insert(i, self.pos_x[i], self.pos_y[i]);
            i += 1;
        }
        grid
    }

    /// The force that candidate `j` exerts on particle `i`, before scaling.
    /// Each component has a magnitude of at most one.
    pub fn pull(&self, i: usize, j: usize) -> (f: (i64, i64))
        requires
            self.wf(),
            i < self@.particles.len(),
        ensures
            (f.0 as int, f.1 as int) == self@.pull(i as int, j as int),
            -ONE <= f.0 <= ONE,
            -ONE <= f.1 <= ONE,
    {
        if j >= self.pos_x.len() || j == i {
            return (0, 0);
        }
        let ghost s = self@;
        assert(s.admits(s.particles[i as int]));
        assert(s.admits(s.particles[j as int]));
        let radius: i64 = self.config.radius;
        let dx: i64 = wrap_delta(self.pos_x[j] - self.pos_x[i], self.config.width);
        let dy: i64 = wrap_delta(self.pos_y[j] - self.pos_y[i], self.config.height);
        assert(dx * dx <= 0x4000_0000_0000_0000 * 0x4000_0000_0000_0000 && dx * dx >= 0)
            by (nonlinear_arith)
            requires
                -0x4000_0000_0000_0000 <= dx <= 0x4000_0000_0000_0000,
        ;
        assert(dy * dy <= 0x4000_0000_0000_0000 * 0x4000_0000_0000_0000 && dy * dy >= 0)
            by (nonlinear_arith)
            requires
                -0x4000_0000_0000_0000 <= dy <= 0x4000_0000_0000_0000,
        ;
        assert(radius * radius <= 0x8000_0000_0000_0000 * 0x8000_0000_0000_0000) by (nonlinear_arith)
            requires
                0 <= radius <= 0x8000_0000_0000_0000,
        ;
        let r2: i128 = (dx as i128) * (dx as i128) + (dy as i128) * (dy as i128);
        let reach: i128 = (radius as i128) * (radius as i128);
        assert(r2 == s.distance2(i as int, j as int));
        if r2 <= 0 || r2 >= reach {
            return (0, 0);
        }
        let root: u64 = isqrt(r2 as u128);
        proof {
            lemma_sqrt_within(root as int, r2 as int, radius as int);
            lemma_sqrt_dominates(dx as int, dy as int, root as int);
        }
        let r: i64 = root as i64;
        assert(0 <= r * ONE < radius * ONE && radius * ONE <= 0x8000_0000_0000_0000 * 1_000_000)
            by (nonlinear_arith)
            requires
                0 <= r < radius <= 0x8000_0000_0000_0000,
        ;
        let ratio: i128 = ((r as i128) * (ONE as i128)) / (radius as i128);
        proof {
            lemma_floor_div(r * ONE, radius as int);
            assert(ratio == r * ONE / (radius as int));
            assert(0 <= ratio < ONE) by (nonlinear_arith)
                requires
                    ratio * radius <= r * ONE,
                    0 <= r * ONE < radius * ONE,
                    radius > 0,
                    ratio >= 0,
            ;
        }
        let rn: i64 = ratio as i64;
        let a: i64 = self.matrix.get(self.colors[i], self.colors[j]);
        let f: i64 = force(rn, a);
        proof {
            lemma_force_bounded(rn as int, a as int);
            assert(magnitude(f as int) <= ONE);
            lemma_tdiv_ratio(dx as int, f as int, r as int);
            lemma_tdiv_ratio(dy as int, f as int, r as int);
        }
        assert(-0x4000_0000_0000_0000 * 1_000_000 <= dx * f <= 0x4000_0000_0000_0000 * 1_000_000)
            by (nonlinear_arith)
            requires
                -0x4000_0000_0000_0000 <= dx <= 0x4000_0000_0000_0000,
                -1_000_000 <= f <= 1_000_000,
        ;
        assert(-0x4000_0000_0000_0000 * 1_000_000 <= dy * f <= 0x4000_0000_0000_0000 * 1_000_000)
            by (nonlinear_arith)
            requires
                -0x4000_0000_0000_0000 <= dy <= 0x4000_0000_0000_0000,
                -1_000_000 <= f <= 1_000_000,
        ;
        let fx: i128 = ((dx as i128) * (f as i128)) / (r as i128);
        let fy: i128 = ((dy as i128) * (f as i128)) / (r as i128);
        assert(fx == tdiv(dx * f, r as int));
        assert(fy == tdiv(dy * f, r as int));
        (fx as i64, fy as i64)
    }

    /// The force on particle `i` from the candidates that `grid` reports near
    /// it, scaled by the interaction radius and the force scale. With the grid
    /// of a step this is the force on the particle in that step.
    pub fn force_on(&self, grid: &Grid, i: usize) -> (f: (i64, i64))
        requires
            self.wf(),
            grid.wf(),
            i < self@.particles.len(),
        ensures
            (f.0 as int, f.1 as int) == self@.force_from(
                i as int,
                grid.near(self@.particles[i as int].x as int, self@.particles[i as int].y as int),
            ),
            self@.is_grid(*grid) ==> (f.0 as int, f.1 as int) == self@.force_on(i as int),
    {
        let near: Vec<usize> = grid.query(self.pos_x[i], self.pos_y[i]);
        let mut sum_x: i128 = 0;
        let mut sum_y: i128 = 0;
        let mut k: usize = 0;
        while k < near.len()
            invariant
                self.wf(),
                i < self@.particles.len(),
                0 <= k <= near@.len(),
                (sum_x as int, sum_y as int) == self@.total(i as int, near@.subrange(0, k as int)),
                -k * ONE <= sum_x <= k * ONE,
                -k * ONE <= sum_y <= k * ONE,
            decreases near@.len() - k,
        {
            let p = self.pull(i, near[k]);
            assert(near@.subrange(0, k + 1).drop_last() == near@.subrange(0, k as int));
            assert(-(k + 1) * ONE == -k * ONE - ONE && (k + 1) * ONE == k * ONE + ONE)
                by (nonlinear_arith);
            assert(k * ONE <= 0xffff_ffff_ffff_ffff * 1_000_000) by (nonlinear_arith)
                requires
                    0 <= k <= 0xffff_ffff_ffff_ffff,
            ;
            sum_x = sum_x + (p.0 as i128);
            sum_y = sum_y + (p.1 as i128);
            k += 1;
        }
        assert(near@.subrange(0, k as int) == near@);
        let fx: i64 = times(times(saturate(sum_x), self.config.radius), self.config.force_scale);
        let fy: i64 = times(times(saturate(sum_y), self.config.radius), self.config.force_scale);
        proof {
            if self@.is_grid(*grid) {
                self@.lemma_grid_reports_candidates(*grid, i as int);
            }
        }
        (fx, fy)
    }

    /// The forces on all particles from the candidates that `grid` reports.
    pub fn forces(&self, grid: &Grid) -> (forces: Vec<(i64, i64)>)
        requires
            self.wf(),
            self@.is_grid(*grid),
        ensures
            forces@ == self@.forces(),
    {
        let mut forces: Vec<(i64, i64)> = Vec::new();
        let mut i: usize = 0;
        while i < self.pos_x.len()
            invariant
                self.wf(),
                self@.is_grid(*grid),
                0 <= i <= self.pos_x@.len(),
                forces@.len() == i,
                forall|k: int| 0 <= k < i ==> #[trigger] forces@[k] == self@.forces()[k],
            decreases self.pos_x@.len() - i,
        {
            let f = self.force_on(grid, i);
            forces.push(f);
            i += 1;
        }
        assert(forces@ =~= self@.forces());
        forces
    }

    /// Moves every particle under its force in `forces` for a time `dt`: the
    /// velocity decays by the friction and gains the force times `dt`, then
    /// the position moves by the new velocity times `dt` and is wrapped back
    /// into the domain.
    pub fn integrate(&mut self, forces: &Vec<(i64, i64)>, dt: i64)
        requires
            old(self).wf(),
            forces@.len() == old(self)@.particles.len(),
        ensures
            final(self).wf(),
            final(self)@ == old(self)@.advance(forces@, dt as int),
    {
        let ghost start = self@;
        let n: usize = self.pos_x.len();
        let mut i: usize = 0;
        while i < n
            invariant
                start.wf(),
                start == old(self)@,
                self.aligned(),
                n == self.pos_x@.len(),
                n == start.particles.len(),
                n == forces@.len(),
                0 <= i <= n,
                self@.config == start.config,
                self@.matrix == start.matrix,
                forall|k: int|
                    0 <= k < i ==> #[trigger] self@.particles[k] == start.moved(
                        start.particles[k],
                        forces@[k],
                        dt as int,
                    ),
                forall|k: int| i <= k < n ==> #[trigger] self@.particles[k] == start.particles[k],
            decreases n - i,
        {
            let ghost before = self@;
            assert(start.admits(start.particles[i as int]));
            assert(before.particles[i as int] == start.particles[i as int]);
            let f = forces[i];
            let vx: i64 = saturate(
                (times(self.vel_x[i], self.config.friction) as i128) + (times(f.0, dt) as i128),
            );
            let vy: i64 = saturate(
                (times(self.vel_y[i], self.config.friction) as i128) + (times(f.1, dt) as i128),
            );
            let x: i64 = wrap((self.pos_x[i] as i128) + (times(vx, dt) as i128), self.config.width);
            let y: i64 = wrap(
                (self.pos_y[i] as i128) + (times(vy, dt) as i128),
                self.config.height,
            );
            self.vel_x[i] = vx;
            self.vel_y[i] = vy;
            self.pos_x[i] = x;
            self.pos_y[i] = y;
            assert(self@.particles[i as int] == start.moved(
                start.particles[i as int],
                forces@[i as int],
                dt as int,
            ));
            assert forall|k: int| 0 <= k < n && k != i implies #[trigger] self@.particles[k]
                == before.particles[k] by {}
            i += 1;
        }
        assert(self@.particles =~= start.advance(forces@, dt as int).particles);
        proof {
            start.lemma_advance_valid(forces@, dt as int);
        }
    }

    /// Advances the simulation by one step of length `dt`: builds the grid of
    /// the current positions, accumulates the force on every particle from the
    /// candidates near it, and then moves every particle under its force.
    /// Every position lies inside the domain afterwards. A `dt` that is not
    /// positive is accepted and gives the state that the same formulas give.
    pub fn step(&mut self, dt: i64)
        requires
            old(self).wf(),
        ensures
            final(self).wf(),
            final(self)@ == old(self)@.next(dt as int),
    {
        let grid = self.build_grid();
        let forces = self.forces(&grid);
        self.integrate(&forces, dt);
    }
}

} // verus!
