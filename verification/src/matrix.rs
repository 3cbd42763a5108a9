//! The interaction matrix: the affinity that each colour class feels for each
//! other.
use vstd::prelude::*;
use crate::fixed::ONE;
use crate::rng::{draws, state_after, Generator};

verus! {

/// The least affinity coefficient: minus one.
pub const LEAST: i64 = -1_000_000;

/// Whether `a` is an affinity coefficient: a quantity between minus one and
/// one.
pub open spec fn is_affinity(a: int) -> bool {
    -ONE <= a <= ONE
}

/// Whether `table` is a square table of affinity coefficients.
pub open spec fn is_affinity_table(table: Seq<Seq<i64>>) -> bool {
    &&& forall|i: int| 0 <= i < table.len() ==> (#[trigger] table[i]).len() == table.len()
    &&& forall|i: int, j: int|
        0 <= i < table.len() && 0 <= j < table.len() ==> is_affinity(#[trigger] table[i][j] as int)
}

/// The rows of a table held as vectors.
pub open spec fn rows_of(rows: Seq<Vec<i64>>) -> Seq<Seq<i64>> {
    Seq::new(rows.len(), |i: int| rows[i]@)
}

/// The square table over `colors` classes whose rows, one after the other,
/// make up `entries`: the entry in row `x` and column `y` is entry number
/// `x * colors + y`.
pub open spec fn table_of(colors: nat, entries: Seq<i64>) -> Seq<Seq<i64>> {
    Seq::new(colors, |x: int| Seq::new(colors, |y: int| entries[x * colors + y]))
}

/// The table over `colors` classes that a generator in the state `state`
/// draws: one draw from the affinity coefficients for each entry, row by row.
pub open spec fn drawn_table(state: u64, colors: nat) -> Seq<Seq<i64>> {
    table_of(colors, draws(state, LEAST, ONE, colors * colors))
}

/// The state of a generator that has drawn a table over `colors` classes,
/// starting in `state`.
pub open spec fn state_after_table(state: u64, colors: nat) -> u64 {
    state_after(state, LEAST, ONE, colors * colors)
}

/// Rows of `n` affinity coefficients each, `n` of them, make a square table
/// of affinity coefficients.
pub proof fn lemma_rows_make_table(rows: Seq<Vec<i64>>)
    requires
        forall|k: int| 0 <= k < rows.len() ==> (#[trigger] rows[k])@.len() == rows.len(),
        forall|k: int, j: int|
            0 <= k < rows.len() && 0 <= j < rows.len() ==> is_affinity(#[trigger] rows[k]@[j] as int),
    ensures
        is_affinity_table(rows_of(rows)),
{
    let table = rows_of(rows);
    assert forall|k: int| 0 <= k < table.len() implies (#[trigger] table[k]).len()
        == table.len() by {
        assert(rows[k]@.len() == rows.len());
    }
    assert forall|k: int, j: int| 0 <= k < table.len() && 0 <= j < table.len() implies is_affinity(
        #[trigger] table[k][j] as int,
    ) by {
        assert(is_affinity(rows[k]@[j] as int));
    }
}

/// A square table of affinity coefficients, indexed by colour class. The
/// entry in row `i` and column `j` is the affinity that a particle of class
/// `i` feels for a neighbour of class `j`; the table need not be symmetric.
pub struct InteractionMatrix {
    rows: Vec<Vec<i64>>,
}

impl View for InteractionMatrix {
    type V = Seq<Seq<i64>>;

    closed spec fn view(&self) -> Seq<Seq<i64>> {
        rows_of(self.rows@)
    }
}

impl InteractionMatrix {
    /// A matrix is well formed when it is a square table of affinity
    /// coefficients.
    pub open spec fn wf(&self) -> bool {
        is_affinity_table(self@)
    }

    /// The number of colour classes.
    pub fn colors(&self) -> (n: usize)
        ensures
            n == self@.len(),
    {
        self.rows.len()
    }

    /// The matrix with the given rows, if they form a square table of
    /// affinity coefficients.
    pub fn from_rows(rows: Vec<Vec<i64>>) -> (res: Option<InteractionMatrix>)
        ensures
            res.is_some() <==> is_affinity_table(rows_of(rows@)),
            res.is_some() ==> res.unwrap()@ == rows_of(rows@),
    {
        let n: usize = rows.len();
        let mut i: usize = 0;
        while i < n
            invariant
                n == rows@.len(),
                0 <= i <= n,
                forall|k: int| 0 <= k < i ==> (#[trigger] rows@[k])@.len() == n,
                forall|k: int, j: int|
                    0 <= k < i && 0 <= j < n ==> is_affinity(#[trigger] rows@[k]@[j] as int),
            decreases n - i,
        {
            let row: &Vec<i64> = &rows[i];
            if row.len() != n {
                assert(rows_of(rows@)[i as int].len() != rows_of(rows@).len());
                return None;
            }
            let mut j: usize = 0;
            while j < n
                invariant
                    n == rows@.len(),
                    0 <= i < n,
                    row == rows@[i as int],
                    row@.len() == n,
                    0 <= j <= n,
                    forall|l: int| 0 <= l < j ==> is_affinity(#[trigger] row@[l] as int),
                decreases n - j,
            {
                if row[j] < -ONE || row[j] > ONE {
                    assert(!is_affinity(rows_of(rows@)[i as int][j as int] as int));
                    return None;
                }
                j += 1;
            }
            i += 1;
        }
        proof {
            lemma_rows_make_table(rows@);
        }
        Some(InteractionMatrix { rows })
    }

    /// The matrix over `colors` classes whose rows, one after the other, make
    /// up `entries`, if there are `colors * colors` entries and each is an
    /// affinity coefficient.
    pub fn from_entries(colors: usize, entries: Vec<i64>) -> (res: Option<InteractionMatrix>)
        ensures
            res.is_some() <==> entries@.len() == colors * colors && forall|k: int|
                0 <= k < entries@.len() ==> is_affinity(#[trigger] entries@[k] as int),
            res.is_some() ==> res.unwrap().wf() && res.unwrap()@ == table_of(
                colors as nat,
                entries@,
            ),
    {
        let held: usize = entries.len();
        match colors.checked_mul(colors) {
            Some(count) => {
                if count != held {
                    return None;
                }
            },
            None => {
                return None;
            },
        }
        let mut rows: Vec<Vec<i64>> = Vec::new();
        let mut at: usize = 0;
        let mut x: usize = 0;
        while x < colors
            invariant
                entries@.len() == colors * colors,
                entries@.len() == held,
                0 <= x <= colors,
                at == x * colors,
                rows@.len() == x,
                forall|k: int| 0 <= k < at ==> is_affinity(#[trigger] entries@[k] as int),
                forall|k: int| 0 <= k < x ==> (#[trigger] rows@[k])@.len() == colors,
                forall|k: int, j: int|
                    0 <= k < x && 0 <= j < colors ==> #[trigger] rows@[k]@[j] == entries@[k
                        * colors + j] && is_affinity(rows@[k]@[j] as int),
            decreases colors - x,
        {
            let mut row: Vec<i64> = Vec::new();
            let mut y: usize = 0;
            while y < colors
                invariant
                    entries@.len() == colors * colors,
                    entries@.len() == held,
                    0 <= x < colors,
                    0 <= y <= colors,
                    at == x * colors + y,
                    row@.len() == y,
                    forall|k: int| 0 <= k < at ==> is_affinity(#[trigger] entries@[k] as int),
                    forall|j: int|
                        0 <= j < y ==> #[trigger] row@[j] == entries@[x * colors + j]
                            && is_affinity(row@[j] as int),
                decreases colors - y,
            {
                assert(x * colors + y < colors * colors) by (nonlinear_arith)
                    requires
                        0 <= x < colors,
                        0 <= y < colors,
                ;
                let a: i64 = entries[at];
                if a < -ONE || a > ONE {
                    return None;
                }
                row.push(a);
                y += 1;
                at += 1;
            }
            rows.push(row);
            assert((x + 1) * colors == x * colors + colors) by (nonlinear_arith);
            x += 1;
        }
        let m = InteractionMatrix { rows };
        proof {
            lemma_rows_make_table(rows@);
            let table = table_of(colors as nat, entries@);
            assert forall|k: int| 0 <= k < colors implies #[trigger] m@[k] == table[k] by {
                assert forall|j: int| 0 <= j < colors implies m@[k][j] == #[trigger] table[k][j] by {
                    assert(rows@[k]@[j] == entries@[k * colors + j]);
                }
                assert(m@[k] =~= table[k]);
            }
            assert(m@ =~= table);
        }
        Some(m)
    }

    /// The affinity that a particle of class `i` feels for a neighbour of
    /// class `j`.
    pub fn get(&self, i: usize, j: usize) -> (a: i64)
        requires
            self.wf(),
            i < self@.len(),
            j < self@.len(),
        ensures
            a == self@[i as int][j as int],
            is_affinity(a as int),
    {
        assert(self@[i as int].len() == self@.len());
        self.rows[i][j]
    }

    /// A matrix over `colors` classes whose every entry is drawn afresh from
    /// the affinity coefficients, row by row: the entry in row `x` and column
    /// `y` is draw number `x * colors + y`.
    pub fn random(colors: usize, rng: &mut Generator) -> (m: InteractionMatrix)
        ensures
            m.wf(),
            m@ == drawn_table(old(rng)@, colors as nat),
            final(rng)@ == state_after_table(old(rng)@, colors as nat),
    {
        let ghost start = rng@;
        let mut entries: Vec<i64> = Vec::new();
        let mut x: usize = 0;
        while x < colors
            invariant
                0 <= x <= colors,
                entries@ == draws(start, LEAST, ONE, (x * colors) as nat),
                rng@ == state_after(start, LEAST, ONE, (x * colors) as nat),
                forall|k: int| 0 <= k < entries@.len() ==> is_affinity(#[trigger] entries@[k] as int),
            decreases colors - x,
        {
            let mut y: usize = 0;
            assert(0 <= x * colors) by (nonlinear_arith)
                requires
                    0 <= x,
                    0 <= colors,
            ;
            while y < colors
                invariant
                    0 <= x < colors,
                    0 <= y <= colors,
                    0 <= x * colors,
                    entries@ == draws(start, LEAST, ONE, (x * colors + y) as nat),
                    rng@ == state_after(start, LEAST, ONE, (x * colors + y) as nat),
                    forall|k: int|
                        0 <= k < entries@.len() ==> is_affinity(#[trigger] entries@[k] as int),
                decreases colors - y,
            {
                let ghost drawn = (x * colors + y) as nat;
                let a: i64 = rng.draw(LEAST, ONE);
                entries.push(a);
                y += 1;
                assert(entries@ =~= draws(start, LEAST, ONE, drawn + 1));
            }
            assert((x + 1) * colors == x * colors + colors) by (nonlinear_arith);
            x += 1;
        }
        assert(entries@.len() == colors * colors);
        let made = InteractionMatrix::from_entries(colors, entries);
        made.unwrap()
    }

    /// Draws every entry afresh from the affinity coefficients, row by row:
    /// the entry in row `x` and column `y` becomes draw number
    /// `x * colors + y`. The number of classes stays; no entry keeps its
    /// value but by chance.
    pub fn randomize(&mut self, rng: &mut Generator)
        ensures
            final(self).wf(),
            final(self)@ == drawn_table(old(rng)@, old(self)@.len()),
            final(rng)@ == state_after_table(old(rng)@, old(self)@.len()),
    {
        let fresh = InteractionMatrix::random(self.rows.len(), rng);
        self.rows = fresh.rows;
    }
}

} // verus!
