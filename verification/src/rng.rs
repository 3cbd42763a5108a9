//! The random source.
//!
//! A `Generator` holds the state of a `fastrand::Rng` as a plain number. A draw
//! is a function of that state and of the range alone: the same state gives
//! the same value and the same next state on every machine. Chance comes in
//! only with the seed, which the caller chooses.
use vstd::prelude::*;

verus! {

/// What `fastrand::Rng::i64` answers on the closed range from `low` to `high`
/// when the generator is in the state `state`: the value drawn, and the state
/// in which the generator is left.
pub uninterp spec fn drawn_i64(state: u64, low: i64, high: i64) -> (i64, u64);

/// Puts a `fastrand::Rng` into the state `state` with `Rng::with_seed`, calls
/// `Rng::i64` on the closed range from `low` to `high`, and reads the state
/// that the generator is left in with `Rng::get_seed`. The generator is a
/// single `u64` that each draw advances by fixed 64-bit arithmetic, so the
/// answer is a function of the state and the range. It panics on an empty
/// range, which the precondition rules out; on any other range the value lies
/// inside the range, ends included.
#[verifier::external_body]
fn draw_i64(state: u64, low: i64, high: i64) -> (r: (i64, u64))
    requires
        low <= high,
    ensures
        r == drawn_i64(state, low, high),
        low <= r.0 <= high,
{
    let mut rng = fastrand::Rng::with_seed(state);
    let value: i64 = rng.i64(low..=high);
    (value, rng.get_seed())
}

/// Puts a `fastrand::Rng` into the state `state` with `Rng::with_seed`, calls
/// `Rng::usize` on the range from zero up to, and without, `bound`, and reads
/// the state that the generator is left in with `Rng::get_seed`. It panics on
/// an empty range, which the precondition rules out; otherwise the value lies
/// below `bound`. Which value it is, and which state follows, depends on the
/// width of `usize` on the machine, so nothing more is claimed of either.
#[verifier::external_body]
fn draw_usize(state: u64, bound: usize) -> (r: (usize, u64))
    requires
        bound > 0,
    ensures
        r.0 < bound,
{
    let mut rng = fastrand::Rng::with_seed(state);
    let value: usize = rng.usize(0..bound);
    (value, rng.get_seed())
}

/// The state of the generator after `k` draws from the closed range from
/// `low` to `high`, starting in `state`.
pub open spec fn state_after(state: u64, low: i64, high: i64, k: nat) -> u64
    decreases k,
{
    if k == 0 {
        state
    } else {
        drawn_i64(state_after(state, low, high, (k - 1) as nat), low, high).1
    }
}

/// The value of draw number `k`, counted from zero, of a run of draws from
/// the closed range from `low` to `high` that starts in `state`.
pub open spec fn nth_draw(state: u64, low: i64, high: i64, k: nat) -> i64 {
    drawn_i64(state_after(state, low, high, k), low, high).0
}

/// The values of the first `n` draws from the closed range from `low` to
/// `high`, starting in `state`, in the order in which they are drawn.
pub open spec fn draws(state: u64, low: i64, high: i64, n: nat) -> Seq<i64> {
    Seq::new(n, |k: int| nth_draw(state, low, high, k as nat))
}

/// A random number generator: the state of a `fastrand::Rng`.
pub struct Generator {
    state: u64,
}

impl View for Generator {
    type V = u64;

    closed spec fn view(&self) -> u64 {
        self.state
    }
}

impl Generator {
    /// The generator in the state `seed`.
    pub fn with_seed(seed: u64) -> (generator: Generator)
        ensures
            generator@ == seed,
    {
        Generator { state: seed }
    }

    /// The state of the generator: the seed from which a generator goes on as
    /// this one does.
    pub fn seed(&self) -> (state: u64)
        ensures
            state == self@,
    {
        self.state
    }

    /// Draws a value from the closed range from `low` to `high` and advances
    /// the generator.
    pub fn draw(&mut self, low: i64, high: i64) -> (value: i64)
        requires
            low <= high,
        ensures
            (value, final(self)@) == drawn_i64(old(self)@, low, high),
            low <= value <= high,
    {
        let drawn = draw_i64(self.state, low, high);
        self.state = drawn.1;
        drawn.0
    }

    /// Draws a value below `bound` and advances the generator.
    pub fn pick(&mut self, bound: usize) -> (value: usize)
        requires
            bound > 0,
        ensures
            value < bound,
    {
        let drawn = draw_usize(self.state, bound);
        self.state = drawn.1;
        drawn.0
    }
}

} // verus!
