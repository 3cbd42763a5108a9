//! The mathematical model of a simulation: what a state is, when it is valid,
//! and which state follows it after one step.
use vstd::prelude::*;
use crate::fixed::{
    floor_sqrt, lemma_product_zero, magnitude, product, sat, shortest, tdiv, ONE,
};
use crate::force::force_value;
use crate::grid::{
    block_of, cell_index, column_of, dimension, lemma_block_holds,
    lemma_near_points_in_adjacent_cells, Grid,
};
use crate::matrix::is_affinity_table;
use crate::rng::drawn_i64;

verus! {

/// The parameters of a run. Each is a fixed-point quantity.
#[derive(Clone, Copy, Debug, PartialEq, Eq, Structural)]
pub struct Config {
    /// The extent of the domain along x.
    pub width: i64,
    /// The extent of the domain along y.
    pub height: i64,
    /// The interaction radius: the distance from which on two particles exert
    /// no force on each other.
    pub radius: i64,
    /// The factor by which a velocity decays in each step.
    pub friction: i64,
    /// The factor, beside the radius, by which the accumulated force is scaled.
    pub force_scale: i64,
}

impl Config {
    /// A configuration is valid when the domain has positive extents and the
    /// interaction radius is positive.
    pub open spec fn wf(self) -> bool {
        self.width > 0 && self.height > 0 && self.radius > 0
    }

    /// Whether the configuration is valid.
    pub fn is_valid(&self) -> (b: bool)
        ensures
            b == self.wf(),
    {
        self.width > 0 && self.height > 0 && self.radius > 0
    }
}

/// The state of a generator that has drawn `k` positions in a domain of the
/// given extents, starting in `state`. A position takes two draws: x from
/// zero up to the last coordinate of the width, then y likewise.
pub open spec fn state_after_places(state: u64, width: i64, height: i64, k: nat) -> u64
    decreases k,
{
    if k == 0 {
        state
    } else {
        let before = state_after_places(state, width, height, (k - 1) as nat);
        drawn_i64(drawn_i64(before, 0, (width - 1) as i64).1, 0, (height - 1) as i64).1
    }
}

/// Position number `k`, counted from zero, of a run of positions drawn in a
/// domain of the given extents by a generator that starts in `state`.
pub open spec fn nth_place(state: u64, width: i64, height: i64, k: nat) -> (i64, i64) {
    let x = drawn_i64(state_after_places(state, width, height, k), 0, (width - 1) as i64);
    (x.0, drawn_i64(x.1, 0, (height - 1) as i64).0)
}

/// One particle: where it is, how fast it moves, and its colour class.
#[derive(Clone, Copy, Debug, PartialEq, Eq, Structural)]
pub struct Particle {
    pub x: i64,
    pub y: i64,
    pub vx: i64,
    pub vy: i64,
    pub color: usize,
}

/// The state of a simulation between two steps.
pub struct State {
    pub config: Config,
    pub particles: Seq<Particle>,
    pub matrix: Seq<Seq<i64>>,
}

impl State {
    /// Whether `p` may be a particle of this state: its position lies inside
    /// the domain and its colour class is one of the matrix.
    pub open spec fn admits(self, p: Particle) -> bool {
        &&& 0 <= p.x < self.config.width
        &&& 0 <= p.y < self.config.height
        &&& p.color < self.matrix.len()
    }

    /// A state is valid when its configuration is valid, its matrix is a
    /// square table of affinity coefficients, and it admits each of its
    /// particles.
    pub open spec fn wf(self) -> bool {
        &&& self.config.wf()
        &&& is_affinity_table(self.matrix)
        &&& forall|i: int| 0 <= i < self.particles.len() ==> self.admits(#[trigger] self.particles[i])
    }

    /// The number of columns of the grid of a step.
    pub open spec fn cols(self) -> int {
        dimension(self.config.width as int, self.config.radius as int)
    }

    /// The number of rows of the grid of a step.
    pub open spec fn rows(self) -> int {
        dimension(self.config.height as int, self.config.radius as int)
    }

    /// The cell of the grid that holds particle `i`.
    pub open spec fn cell(self, i: int) -> (int, int) {
        (
            cell_index(self.particles[i].x as int, self.config.radius as int, self.cols()),
            cell_index(self.particles[i].y as int, self.config.radius as int, self.rows()),
        )
    }

    /// Those of the first `k` particles that lie in cell `(cx, cy)`, in
    /// increasing order.
    pub open spec fn occupants(self, k: nat, cx: int, cy: int) -> Seq<usize>
        decreases k,
    {
        if k == 0 {
            Seq::empty()
        } else {
            let before = self.occupants((k - 1) as nat, cx, cy);
            if self.cell(k - 1) == (cx, cy) {
                before.push((k - 1) as usize)
            } else {
                before
            }
        }
    }

    /// Whether `grid` is the grid of a step from this state: its cells have
    /// the interaction radius for their side, it covers the domain, and each
    /// of its cells holds the particles that lie in it, in increasing order.
    pub open spec fn is_grid(self, grid: Grid) -> bool {
        &&& grid.wf()
        &&& grid.cell_size() == self.config.radius
        &&& grid.cols() == self.cols()
        &&& grid.rows() == self.rows()
        &&& forall|cx: int, cy: int| #[trigger]
            grid.bucket(cx, cy) == self.occupants(self.particles.len(), cx, cy)
    }

    /// The candidates for an interaction with particle `i`: the occupants of
    /// the three by three block of cells around its own.
    pub open spec fn candidates(self, i: int) -> Seq<usize> {
        block_of(
            |cx: int, cy: int| self.occupants(self.particles.len(), cx, cy),
            self.cols(),
            self.rows(),
            self.cell(i).0,
            self.cell(i).1,
        )
    }

    /// The shortest displacement from particle `i` to particle `j` on the
    /// torus.
    pub open spec fn delta(self, i: int, j: int) -> (int, int) {
        (
            shortest(self.particles[j].x - self.particles[i].x, self.config.width as int),
            shortest(self.particles[j].y - self.particles[i].y, self.config.height as int),
        )
    }

    /// The square of the distance between particles `i` and `j` on the torus.
    pub open spec fn distance2(self, i: int, j: int) -> int {
        self.delta(i, j).0 * self.delta(i, j).0 + self.delta(i, j).1 * self.delta(i, j).1
    }

    /// Whether particle `i` feels particle `j`: they are two particles of the
    /// state, apart, and nearer to each other than the interaction radius.
    pub open spec fn interacts(self, i: int, j: int) -> bool {
        &&& 0 <= j < self.particles.len()
        &&& j != i
        &&& 0 < self.distance2(i, j) < self.config.radius * self.config.radius
    }

    /// The force that candidate `j` exerts on particle `i`, before scaling:
    /// the value of the force law at their normalised distance, along the unit
    /// vector from `i` to `j`. A candidate that `i` does not feel exerts none.
    pub open spec fn pull(self, i: int, j: int) -> (int, int) {
        if self.interacts(i, j) {
            let (dx, dy) = self.delta(i, j);
            let r = floor_sqrt(self.distance2(i, j));
            let a = self.matrix[self.particles[i].color as int][self.particles[j].color as int];
            let f = force_value(r * ONE / (self.config.radius as int), a as int);
            (tdiv(dx * f, r), tdiv(dy * f, r))
        } else {
            (0, 0)
        }
    }

    /// The sum of the forces that the candidates in `among` exert on particle
    /// `i`. A candidate that is listed twice counts twice.
    pub open spec fn total(self, i: int, among: Seq<usize>) -> (int, int)
        decreases among.len(),
    {
        if among.len() == 0 {
            (0, 0)
        } else {
            let before = self.total(i, among.drop_last());
            let last = self.pull(i, among.last() as int);
            (before.0 + last.0, before.1 + last.1)
        }
    }

    /// One component of a force, scaled by the interaction radius and the
    /// force scale.
    pub open spec fn scaled(self, sum: int) -> int {
        product(product(sat(sum), self.config.radius as int), self.config.force_scale as int)
    }

    /// The force that the candidates in `among` exert on particle `i`.
    pub open spec fn force_from(self, i: int, among: Seq<usize>) -> (int, int) {
        (self.scaled(self.total(i, among).0), self.scaled(self.total(i, among).1))
    }

    /// The force on particle `i` in a step from this state.
    pub open spec fn force_on(self, i: int) -> (int, int) {
        self.force_from(i, self.candidates(i))
    }

    /// The forces on all particles in a step from this state.
    pub open spec fn forces(self) -> Seq<(i64, i64)> {
        Seq::new(
            self.particles.len(),
            |i: int| (self.force_on(i).0 as i64, self.force_on(i).1 as i64),
        )
    }

    /// The particle `p` after a step of length `dt` under the force `f`: the
    /// velocity decays by the friction and gains `f * dt`, the position moves
    /// by the new velocity times `dt` and is wrapped back into the domain.
    pub open spec fn moved(self, p: Particle, f: (i64, i64), dt: int) -> Particle {
        let vx = sat(product(p.vx as int, self.config.friction as int) + product(f.0 as int, dt));
        let vy = sat(product(p.vy as int, self.config.friction as int) + product(f.1 as int, dt));
        Particle {
            x: ((p.x + product(vx, dt)) % (self.config.width as int)) as i64,
            y: ((p.y + product(vy, dt)) % (self.config.height as int)) as i64,
            vx: vx as i64,
            vy: vy as i64,
            color: p.color,
        }
    }

    /// The state after every particle has moved under its force in `forces`.
    pub open spec fn advance(self, forces: Seq<(i64, i64)>, dt: int) -> State {
        State {
            config: self.config,
            particles: Seq::new(
                self.particles.len(),
                |i: int| self.moved(self.particles[i], forces[i], dt),
            ),
            matrix: self.matrix,
        }
    }

    /// The state on a domain of new extents: every position is wrapped into
    /// the new domain, everything else stays.
    pub open spec fn resized(self, width: i64, height: i64) -> State {
        State {
            config: Config {
                width,
                height,
                radius: self.config.radius,
                friction: self.config.friction,
                force_scale: self.config.force_scale,
            },
            particles: Seq::new(
                self.particles.len(),
                |i: int|
                    Particle {
                        x: ((self.particles[i].x as int) % (width as int)) as i64,
                        y: ((self.particles[i].y as int) % (height as int)) as i64,
                        vx: self.particles[i].vx,
                        vy: self.particles[i].vy,
                        color: self.particles[i].color,
                    },
            ),
            matrix: self.matrix,
        }
    }

    /// The state that follows this one after a step of length `dt`.
    pub open spec fn next(self, dt: int) -> State {
        self.advance(self.forces(), dt)
    }

    /// The grid of a step reports, near each particle, the candidates of that
    /// particle.
    pub proof fn lemma_grid_reports_candidates(self, grid: Grid, i: int)
        requires
            self.is_grid(grid),
        ensures
            grid.near(self.particles[i].x as int, self.particles[i].y as int) == self.candidates(i),
    {
        let cols = self.cols();
        let rows = self.rows();
        let mine = |cx: int, cy: int| self.occupants(self.particles.len(), cx, cy);
        let theirs = |cx: int, cy: int| grid.bucket(cx, cy);
        assert forall|cx: int, cy: int| column_of(theirs, rows, cx, cy) == column_of(
            mine,
            rows,
            cx,
            cy,
        ) by {
            assert(theirs(cx, (cy - 1) % rows) == mine(cx, (cy - 1) % rows));
            assert(theirs(cx, cy % rows) == mine(cx, cy % rows));
            assert(theirs(cx, (cy + 1) % rows) == mine(cx, (cy + 1) % rows));
        }
    }

    /// Moving the particles of a valid state gives a valid state: every
    /// position lies inside the domain again, whatever the forces and the
    /// length of the step.
    pub proof fn lemma_advance_valid(self, forces: Seq<(i64, i64)>, dt: int)
        requires
            self.wf(),
        ensures
            self.advance(forces, dt).wf(),
    {
        let after = self.advance(forces, dt);
        assert forall|i: int| 0 <= i < after.particles.len() implies after.admits(
            #[trigger] after.particles[i],
        ) by {
            let p = self.particles[i];
            assert(self.admits(p));
            let q = self.moved(p, forces[i], dt);
            assert(after.particles[i] == q);
            vstd::arithmetic::div_mod::lemma_mod_bound(
                p.x + product(q.vx as int, dt),
                self.config.width as int,
            );
            vstd::arithmetic::div_mod::lemma_mod_bound(
                p.y + product(q.vy as int, dt),
                self.config.height as int,
            );
        }
    }

    /// After a step from a valid state every particle lies inside the domain.
    pub proof fn lemma_step_stays_in_domain(self, dt: int, i: int)
        requires
            self.wf(),
            0 <= i < self.particles.len(),
        ensures
            0 <= self.next(dt).particles[i].x < self.config.width,
            0 <= self.next(dt).particles[i].y < self.config.height,
    {
        self.lemma_advance_valid(self.forces(), dt);
        assert(self.next(dt).admits(self.next(dt).particles[i]));
    }

    /// Each of the first `k` particles is among the occupants of its cell.
    pub proof fn lemma_occupant(self, k: nat, j: int)
        requires
            0 <= j < k <= usize::MAX,
        ensures
            self.occupants(k, self.cell(j).0, self.cell(j).1).contains(j as usize),
        decreases k,
    {
        let (cx, cy) = self.cell(j);
        let before = self.occupants((k - 1) as nat, cx, cy);
        if j == k - 1 {
            assert(before.push(j as usize)[before.len() as int] == j as usize);
        } else {
            self.lemma_occupant((k - 1) as nat, j);
            let at = choose|at: int| 0 <= at < before.len() && before[at] == j as usize;
            if self.cell(k - 1) == (cx, cy) {
                assert(before.push((k - 1) as usize)[at] == j as usize);
            }
        }
    }

    /// The grid misses no neighbour: a particle `j` that is nearer to particle
    /// `i` than the interaction radius is among the candidates of `i`.
    pub proof fn lemma_neighbours_are_candidates(self, i: int, j: int)
        requires
            self.wf(),
            self.particles.len() <= usize::MAX,
            0 <= i < self.particles.len(),
            0 <= j < self.particles.len(),
            self.distance2(i, j) < self.config.radius * self.config.radius,
        ensures
            self.candidates(i).contains(j as usize),
    {
        let radius = self.config.radius as int;
        let (dx, dy) = self.delta(i, j);
        let pi = self.particles[i];
        let pj = self.particles[j];
        assert(self.admits(pi));
        assert(self.admits(pj));
        assert(magnitude(dx) < radius && magnitude(dy) < radius) by (nonlinear_arith)
            requires
                dx * dx + dy * dy < radius * radius,
                radius > 0,
        ;
        lemma_near_points_in_adjacent_cells(
            pi.x as int,
            pj.x as int,
            self.config.width as int,
            radius,
        );
        lemma_near_points_in_adjacent_cells(
            pi.y as int,
            pj.y as int,
            self.config.height as int,
            radius,
        );
        let (cx, cy) = self.cell(i);
        let (ox, oy) = self.cell(j);
        let ex: int = if ox == (cx - 1) % self.cols() {
            -1
        } else if ox == cx % self.cols() {
            0
        } else {
            1
        };
        let ey: int = if oy == (cy - 1) % self.rows() {
            -1
        } else if oy == cy % self.rows() {
            0
        } else {
            1
        };
        self.lemma_occupant(self.particles.len(), j);
        let bucket = |cx: int, cy: int| self.occupants(self.particles.len(), cx, cy);
        assert(bucket((cx + ex) % self.cols(), (cy + ey) % self.rows()) == self.occupants(
            self.particles.len(),
            ox,
            oy,
        ));
        lemma_block_holds(bucket, self.cols(), self.rows(), cx, cy, ex, ey, j as usize);
    }

    /// Candidates that exert no force add up to no force.
    pub proof fn lemma_total_of_nothing(self, i: int, among: Seq<usize>)
        requires
            forall|k: int| 0 <= k < among.len() ==> self.pull(i, #[trigger] among[k] as int) == (0int, 0int),
        ensures
            self.total(i, among) == (0int, 0int),
        decreases among.len(),
    {
        if among.len() > 0 {
            assert forall|k: int| 0 <= k < among.drop_last().len() implies self.pull(
                i,
                #[trigger] among.drop_last()[k] as int,
            ) == (0int, 0int) by {
                assert(among.drop_last()[k] == among[k]);
            }
            self.lemma_total_of_nothing(i, among.drop_last());
            assert(self.pull(i, among[among.len() - 1] as int) == (0int, 0int));
        }
    }

    /// A particle that feels no other is under no force: in a step its
    /// velocity decays by the friction and nothing else, and if it was at
    /// rest it stays where it is.
    pub proof fn lemma_alone_feels_nothing(self, i: int, dt: int)
        requires
            self.wf(),
            0 <= i < self.particles.len(),
            forall|j: int| !self.interacts(i, j),
        ensures
            self.force_on(i) == (0int, 0int),
            self.next(dt).particles[i].vx == product(
                self.particles[i].vx as int,
                self.config.friction as int,
            ),
            self.next(dt).particles[i].vy == product(
                self.particles[i].vy as int,
                self.config.friction as int,
            ),
            self.particles[i].vx == 0 && self.particles[i].vy == 0 ==> self.next(dt).particles[i]
                == self.particles[i],
    {
        let p = self.particles[i];
        assert(self.admits(p));
        self.lemma_total_of_nothing(i, self.candidates(i));
        lemma_product_zero(self.config.radius as int);
        lemma_product_zero(self.config.force_scale as int);
        lemma_product_zero(dt);
        lemma_product_zero(self.config.friction as int);
        assert(self.forces()[i] == (0i64, 0i64));
        if p.vx == 0 && p.vy == 0 {
            vstd::arithmetic::div_mod::lemma_small_mod(p.x as nat, self.config.width as nat);
            vstd::arithmetic::div_mod::lemma_small_mod(p.y as nat, self.config.height as nat);
        }
    }

    /// The grid of a step, asked at the position of particle `i`, reports
    /// every particle that is nearer to `i` than the interaction radius.
    pub proof fn lemma_grid_finds_neighbours(self, grid: Grid, i: int, j: int)
        requires
            self.wf(),
            self.is_grid(grid),
            self.particles.len() <= usize::MAX,
            0 <= i < self.particles.len(),
            0 <= j < self.particles.len(),
            self.distance2(i, j) < self.config.radius * self.config.radius,
        ensures
            grid.near(self.particles[i].x as int, self.particles[i].y as int).contains(j as usize),
    {
        self.lemma_neighbours_are_candidates(i, j);
        self.lemma_grid_reports_candidates(grid, i);
    }
}

} // verus!
