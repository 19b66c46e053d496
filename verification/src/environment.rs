//! The organism registry and the simulation engine.
//!
//! A `State` owns a `Grid` and a registry of organisms keyed by id. Ids are
//! assigned by a strictly increasing counter whose first value is 2 (one more
//! than the counter's starting value of 1). Each tick, `step` proposes an
//! action for every organism against a snapshot of the registry, validates
//! it against the pre-tick grid, clears the grid, and commits the validated
//! actions in registry order.

use crate::grid::{idx, CellIndex, Grid, SeekOrientation};
use rand::seq::SliceRandom;
use rand::Rng;
use vstd::prelude::*;

verus! {

/// A cosmetic RGBA color; it plays no part in the simulation rules.
#[derive(Clone, Copy, PartialEq, Eq, Structural, Debug)]
pub struct Color {
    pub r: u8,
    pub g: u8,
    pub b: u8,
    pub a: u8,
}

/// An organism: a position on the grid and a cosmetic color.
#[derive(Clone, Copy, Debug)]
pub struct Organism {
    pub position: CellIndex,
    pub color: Color,
}

/// The four move directions: `Forward`/`Backward` run along rows
/// (`+row`/`-row`), `Down`/`Up` along columns (`+col`/`-col`).
#[derive(Clone, Copy)]
pub enum MoveAction {
    Forward,
    Backward,
    Up,
    Down,
}

/// What an organism proposes to do in one tick.
#[derive(Clone, Copy)]
pub enum Action {
    Move(MoveAction),
    InPlace,
}

/// The recoverable failures of the registry.
#[derive(Clone, Copy, PartialEq, Eq, Structural, Debug)]
pub enum SimError {
    /// A position change named an id that the registry does not hold.
    UnknownOrganismId,
    /// More random organisms were requested than the grid has cells.
    CapacityExceeded,
}

/// Relies on rand::Rng::gen_range over rand::thread_rng to draw one byte;
/// any byte may come back, so nothing is claimed of the result.
#[verifier::external_body]
fn random_u8() -> u8 {
    rand::thread_rng().gen_range(0..=255)
}

/// Relies on rand::seq::SliceRandom::shuffle with rand::thread_rng: a
/// Fisher-Yates shuffle that only swaps elements in place, so the new
/// contents are a permutation of the old, whatever order came back.
#[verifier::external_body]
fn shuffle_in_place(v: &mut Vec<usize>)
    ensures
        final(v)@.len() == old(v)@.len(),
        final(v)@.to_multiset() == old(v)@.to_multiset(),
{
    v.shuffle(&mut rand::thread_rng());
}

impl Organism {
    /// A fresh organism at `position` with a randomly chosen color.
    fn new(position: CellIndex) -> (o: Self)
        ensures
            o.position == position,
    {
        Organism {
            position,
            color: Color { r: random_u8(), g: random_u8(), b: random_u8(), a: 255 },
        }
    }

    /// The decision policy. The current policy is degenerate: it always
    /// proposes a forward move, whatever the organism's situation.
    fn get_action(&self) -> (a: Action)
        ensures
            a == policy_action(*self),
    {
        Action::Move(MoveAction::Forward)
    }
}

/// What the current (always-forward) policy proposes for an organism.
pub open spec fn policy_action(o: Organism) -> Action {
    Action::Move(MoveAction::Forward)
}

/// The position that the linear cell number `index` denotes, columns-first:
/// row `index % rows`, column `index / rows`.
spec fn linear_position(index: int, rows: int) -> (int, int) {
    (index % rows, index / rows)
}

/// A linear cell number below `rows * cols` denotes an in-bounds position.
proof fn lemma_linear_position_in_bounds(index: int, rows: int, cols: int)
    requires
        0 <= index < rows * cols,
        0 < rows,
    ensures
        0 <= linear_position(index, rows).0 < rows,
        0 <= linear_position(index, rows).1 < cols,
{
    assert(0 <= index % rows < rows && 0 <= index / rows < cols) by (nonlinear_arith)
        requires
            0 <= index < rows * cols,
            0 < rows,
    ;
}

/// Distinct linear cell numbers denote distinct positions.
proof fn lemma_linear_position_injective(a: int, b: int, rows: int)
    requires
        0 <= a,
        0 <= b,
        0 < rows,
        a != b,
    ensures
        linear_position(a, rows) != linear_position(b, rows),
{
    if a % rows == b % rows && a / rows == b / rows {
        vstd::arithmetic::div_mod::lemma_fundamental_div_mod(a, rows);
        vstd::arithmetic::div_mod::lemma_fundamental_div_mod(b, rows);
    }
}

/// The cell one step from `pos` in the direction of `m`.
pub open spec fn move_target(pos: (int, int), m: MoveAction) -> (int, int) {
    match m {
        MoveAction::Forward => (pos.0 + 1, pos.1),
        MoveAction::Backward => (pos.0 - 1, pos.1),
        MoveAction::Down => (pos.0, pos.1 + 1),
        MoveAction::Up => (pos.0, pos.1 - 1),
    }
}

/// The cell an action leads to: a move's target, or the position itself.
pub open spec fn action_target(pos: (int, int), a: Action) -> (int, int) {
    match a {
        Action::Move(m) => move_target(pos, m),
        Action::InPlace => pos,
    }
}

/// The whole simulation: the occupancy grid, the registry of organisms
/// (keyed by id, in increasing id order), and the list of ids ever assigned.
pub struct State {
    pub grid: Grid,
    pub organisms: Vec<(u32, Organism)>,
    pub ids: Vec<u32>,
}

impl Default for State {
    fn default() -> (s: Self)
        ensures
            s.wf(),
            s.grid.num_rows == 0,
            s.grid.num_cols == 0,
            s.organisms@.len() == 0,
            s.ids@.len() == 0,
    {
        State { grid: Grid::new(0, 0), organisms: Vec::new(), ids: Vec::new() }
    }
}

impl State {
    /// The id of the `i`th registry entry.
    pub open spec fn key_at(self, i: int) -> u32 {
        self.organisms@[i].0
    }

    /// The organism of the `i`th registry entry.
    pub open spec fn org_at(self, i: int) -> Organism {
        self.organisms@[i].1
    }

    /// Whether some registry entry carries the id.
    pub open spec fn has_key(self, id: u32) -> bool {
        exists|i: int| 0 <= i < self.organisms@.len() && #[trigger] self.key_at(i) == id
    }

    /// The grid is well formed; the assigned ids are exactly 2, 3, ...;
    /// registry keys are assigned ids in strictly increasing order; and
    /// every recorded position lies on the grid.
    pub open spec fn wf(self) -> bool {
        &&& self.grid.wf()
        &&& forall|i: int| 0 <= i < self.ids@.len() ==> (#[trigger] self.ids@[i]) as int == i + 2
        &&& forall|i: int|
            0 <= i < self.organisms@.len() ==> 2 <= (#[trigger] self.key_at(i)) as int
                <= self.ids@.len() + 1
        &&& forall|i: int, j: int|
            0 <= i < j < self.organisms@.len() ==> #[trigger] self.key_at(i)
                < #[trigger] self.key_at(j)
        &&& forall|i: int|
            0 <= i < self.organisms@.len() ==> self.grid.in_bounds(
                idx((#[trigger] self.org_at(i)).position),
            )
    }

    pub fn new(row_size: usize, column_size: usize) -> (s: Self)
        requires
            row_size * column_size <= usize::MAX,
        ensures
            s.wf(),
            s.grid.num_rows == row_size,
            s.grid.num_cols == column_size,
            s.organisms@.len() == 0,
            s.ids@.len() == 0,
            forall|r: int, c: int|
                s.grid.in_bounds((r, c)) ==> #[trigger] s.grid.cell_value(r, c) == 0,
            s.grid.occupied_count() == 0,
    {
        let grid = Grid::new(row_size, column_size);
        proof {
            assert forall|r: int, c: int|
                0 <= r < grid.cells@.len() && 0 <= c < grid.cells@[r]@.len() implies (
            grid.cells@[r]@[c]).value == 0 by {
                assert(grid.in_bounds((r, c)));
                assert(grid.cell_value(r, c) == 0);
            }
            crate::grid::lemma_occupied_zero(grid.cells@, grid.cells@.len() as int);
        }
        State { grid, organisms: Vec::new(), ids: Vec::new() }
    }

    /// Returns the next id (one more than the last assigned id, so the first
    /// returned id is 2) and records it.
    pub fn assign_id(&mut self) -> (id: u32)
        requires
            old(self).wf(),
            old(self).ids@.len() + 2 <= u32::MAX,
        ensures
            final(self).wf(),
            id as int == old(self).ids@.len() + 2,
            final(self).ids@ == old(self).ids@.push(id),
            final(self).organisms == old(self).organisms,
            final(self).grid == old(self).grid,
    {
        let next_id: u32 = if self.ids.len() == 0 {
            2
        } else {
            self.ids[self.ids.len() - 1] + 1
        };
        self.ids.push(next_id);
        proof {
            assert forall|i: int| 0 <= i < self.ids@.len() implies (#[trigger] self.ids@[i]) as int
                == i + 2 by {
                if i < old(self).ids@.len() {
                    assert(old(self).ids@[i] as int == i + 2);
                }
            }
            assert forall|i: int|
                0 <= i < self.organisms@.len() implies 2 <= (#[trigger] self.key_at(i)) as int
                <= self.ids@.len() + 1 by {
                assert(2 <= old(self).key_at(i) as int <= old(self).ids@.len() + 1);
                assert(self.key_at(i) == old(self).key_at(i));
            }
            assert forall|i: int, j: int|
                0 <= i < j < self.organisms@.len() implies #[trigger] self.key_at(i)
                < #[trigger] self.key_at(j) by {
                assert(old(self).key_at(i) < old(self).key_at(j));
            }
            assert forall|i: int|
                0 <= i < self.organisms@.len() implies self.grid.in_bounds(
                idx((#[trigger] self.org_at(i)).position),
            ) by {
                assert(old(self).grid.in_bounds(idx(old(self).org_at(i).position)));
                assert(self.org_at(i) == old(self).org_at(i));
            }
        }
        next_id
    }

    /// Moves the organism `id` to `position`: the registry records the new
    /// position and the grid cell at `position` is marked with `id` (the
    /// organism's old cell is not cleared; a tick clears the whole grid
    /// before recommitting positions). Fails, changing nothing, exactly when
    /// `id` was never assigned to an organism.
    pub fn change_organism_position(&mut self, id: u32, position: CellIndex) -> (r: Result<
        (),
        SimError,
    >)
        requires
            old(self).wf(),
            old(self).grid.in_bounds(idx(position)),
        ensures
            final(self).wf(),
            final(self).grid.same_shape(old(self).grid),
            final(self).ids == old(self).ids,
            final(self).organisms@.len() == old(self).organisms@.len(),
            r is Ok <==> old(self).has_key(id),
            !old(self).has_key(id) ==> *final(self) == *old(self) && r == Err::<(), SimError>(
                SimError::UnknownOrganismId,
            ),
            old(self).has_key(id) ==> {
                &&& forall|i: int|
                    0 <= i < old(self).organisms@.len() && old(self).key_at(i) != id
                        ==> #[trigger] final(self).organisms@[i] == old(self).organisms@[i]
                &&& forall|i: int|
                    0 <= i < old(self).organisms@.len() && old(self).key_at(i) == id ==> (
                    #[trigger] final(self).org_at(i)).position == position && final(self).org_at(
                        i,
                    ).color == old(self).org_at(i).color && final(self).key_at(i) == id
                &&& final(self).grid.cell_value(position.0 as int, position.1 as int) == id
                &&& forall|rr: int, cc: int|
                    old(self).grid.in_bounds((rr, cc)) && (rr, cc) != idx(position)
                        ==> #[trigger] final(self).grid.cell_value(rr, cc) == old(
                        self,
                    ).grid.cell_value(rr, cc)
                &&& final(self).grid.occupied_count() == old(self).grid.occupied_count() + (if old(
                    self,
                ).grid.cell_value(position.0 as int, position.1 as int) == 0 {
                    1int
                } else {
                    0int
                })
            },
    {
        let n = self.organisms.len();
        let mut i: usize = 0;
        while i < n
            invariant
                *self == *old(self),
                self.wf(),
                self.grid.in_bounds(idx(position)),
                n == self.organisms@.len(),
                i <= n,
                forall|k: int| 0 <= k < i ==> #[trigger] self.key_at(k) != id,
            decreases n - i,
        {
            if self.organisms[i].0 == id {
                self.grid.set_cell(position, id);
                let org = self.organisms[i].1;
                self.organisms[i] = (id, Organism { position, color: org.color });
                proof {
                    let s0 = *old(self);
                    assert(s0.key_at(i as int) == id);
                    assert(s0.has_key(id));
                    assert(2 <= s0.key_at(i as int) as int);
                    assert forall|k: int|
                        0 <= k < self.organisms@.len() && s0.key_at(k) != id implies #[trigger] self.organisms@[k] == s0.organisms@[k] by {
                        assert(k != i as int);
                    }
                    assert forall|k: int|
                        0 <= k < self.organisms@.len() && s0.key_at(k) == id implies (
                    #[trigger] self.org_at(k)).position == position && self.org_at(k).color
                        == s0.org_at(k).color && self.key_at(k) == id by {
                        if k != i as int {
                            assert(s0.key_at(k) == s0.key_at(i as int));
                            if k < i as int {
                                assert(s0.key_at(k) < s0.key_at(i as int));
                            } else {
                                assert(s0.key_at(i as int) < s0.key_at(k));
                            }
                        }
                    }
                    assert forall|k: int|
                        0 <= k < self.organisms@.len() implies 2 <= (#[trigger] self.key_at(
                        k,
                    )) as int <= self.ids@.len() + 1 by {
                        assert(2 <= s0.key_at(k) as int <= s0.ids@.len() + 1);
                    }
                    assert forall|k: int, l: int|
                        0 <= k < l < self.organisms@.len() implies #[trigger] self.key_at(k)
                        < #[trigger] self.key_at(l) by {
                        assert(s0.key_at(k) < s0.key_at(l));
                        assert(self.key_at(k) == s0.key_at(k) && self.key_at(l) == s0.key_at(l));
                    }
                    assert forall|k: int|
                        0 <= k < self.organisms@.len() implies self.grid.in_bounds(
                        idx((#[trigger] self.org_at(k)).position),
                    ) by {
                        if k != i as int {
                            assert(s0.grid.in_bounds(idx(s0.org_at(k).position)));
                            assert(self.org_at(k) == s0.org_at(k));
                        }
                    }
                }
                return Ok(());
            }
            i = i + 1;
        }
        proof {
            assert(!old(self).has_key(id));
        }
        Err(SimError::UnknownOrganismId)
    }

    /// Creates an organism with a fresh id and a random color at `position`,
    /// inserts it into the registry, and marks its grid cell.
    pub fn initialize_organism(&mut self, position: CellIndex)
        requires
            old(self).wf(),
            old(self).grid.in_bounds(idx(position)),
            old(self).ids@.len() + 2 <= u32::MAX,
        ensures
            final(self).wf(),
            final(self).grid.same_shape(old(self).grid),
            final(self).ids@.len() == old(self).ids@.len() + 1,
            final(self).organisms@.len() == old(self).organisms@.len() + 1,
            forall|i: int|
                0 <= i < old(self).organisms@.len() ==> #[trigger] final(self).organisms@[i] == old(
                    self,
                ).organisms@[i],
            final(self).key_at(old(self).organisms@.len() as int) as int == old(self).ids@.len()
                + 2,
            final(self).org_at(old(self).organisms@.len() as int).position == position,
            final(self).grid.cell_value(position.0 as int, position.1 as int) as int == old(
                self,
            ).ids@.len() + 2,
            forall|rr: int, cc: int|
                old(self).grid.in_bounds((rr, cc)) && (rr, cc) != idx(position)
                    ==> #[trigger] final(self).grid.cell_value(rr, cc) == old(self).grid.cell_value(
                    rr,
                    cc,
                ),
            final(self).grid.occupied_count() == old(self).grid.occupied_count() + (if old(
                self,
            ).grid.cell_value(position.0 as int, position.1 as int) == 0 {
                1int
            } else {
                0int
            }),
    {
        let id = self.assign_id();
        let organism = Organism::new(position);
        self.organisms.push((id, organism));
        self.grid.set_cell(position, id);
        proof {
            let s0 = *old(self);
            let m = s0.organisms@.len() as int;
            assert forall|k: int|
                0 <= k < self.organisms@.len() implies 2 <= (#[trigger] self.key_at(k)) as int
                <= self.ids@.len() + 1 by {
                if k < m {
                    assert(2 <= s0.key_at(k) as int <= s0.ids@.len() + 1);
                    assert(self.key_at(k) == s0.key_at(k));
                }
            }
            assert forall|k: int, l: int|
                0 <= k < l < self.organisms@.len() implies #[trigger] self.key_at(k)
                < #[trigger] self.key_at(l) by {
                if l < m {
                    assert(s0.key_at(k) < s0.key_at(l));
                    assert(self.key_at(k) == s0.key_at(k) && self.key_at(l) == s0.key_at(l));
                } else {
                    assert(self.key_at(k) == s0.key_at(k));
                    assert(2 <= s0.key_at(k) as int <= s0.ids@.len() + 1);
                }
            }
            assert forall|k: int|
                0 <= k < self.organisms@.len() implies self.grid.in_bounds(
                idx((#[trigger] self.org_at(k)).position),
            ) by {
                if k < m {
                    assert(s0.grid.in_bounds(idx(s0.org_at(k).position)));
                    assert(self.org_at(k) == s0.org_at(k));
                }
            }
        }
    }

    /// A move is valid iff the organism is not already at the grid edge in
    /// that direction, and some free cell lies strictly ahead of it along
    /// that direction (the seek-zero probe).
    pub open spec fn validate_move_spec(self, org: Organism, m: MoveAction) -> bool {
        let p = idx(org.position);
        match m {
            MoveAction::Forward => p.0 < self.grid.num_rows - 1 && self.grid.seek_zero_spec(
                p,
                SeekOrientation::PosX,
            ),
            MoveAction::Backward => p.0 > 0 && self.grid.seek_zero_spec(
                p,
                SeekOrientation::NegX,
            ),
            MoveAction::Up => p.1 > 0 && self.grid.seek_zero_spec(p, SeekOrientation::NegY),
            MoveAction::Down => p.1 < self.grid.num_cols - 1 && self.grid.seek_zero_spec(
                p,
                SeekOrientation::PosY,
            ),
        }
    }

    /// `InPlace` is always valid; a move is valid per `validate_move_spec`.
    pub open spec fn validate_action_spec(self, org: Organism, a: Action) -> bool {
        match a {
            Action::Move(m) => self.validate_move_spec(org, m),
            Action::InPlace => true,
        }
    }

    /// Decides whether `motion` is legal for the organism of
    /// `organism_entry` against the current grid.
    pub fn validate_move(&self, organism_entry: (u32, Organism), motion: MoveAction) -> (r: bool)
        requires
            self.wf(),
            self.grid.in_bounds(idx(organism_entry.1.position)),
        ensures
            r == self.validate_move_spec(organism_entry.1, motion),
    {
        let organism = organism_entry.1;
        match motion {
            MoveAction::Forward => {
                let (x, _y) = organism.position;
                if x < self.grid.shape().0 - 1 && self.grid.seek_zero(
                    organism.position,
                    SeekOrientation::PosX,
                ) {
                    return true;
                }
            },
            MoveAction::Backward => {
                let (x, _y) = organism.position;
                if x > 0 && self.grid.seek_zero(organism.position, SeekOrientation::NegX) {
                    return true;
                }
            },
            MoveAction::Up => {
                let (_x, y) = organism.position;
                if y > 0 && self.grid.seek_zero(organism.position, SeekOrientation::NegY) {
                    return true;
                }
            },
            MoveAction::Down => {
                let (_x, y) = organism.position;
                if y < self.grid.shape().1 - 1 && self.grid.seek_zero(
                    organism.position,
                    SeekOrientation::PosY,
                ) {
                    return true;
                }
            },
        }
        false
    }

    pub fn validate_action(&self, organism_entry: (u32, Organism), action: Action) -> (r: bool)
        requires
            self.wf(),
            self.grid.in_bounds(idx(organism_entry.1.position)),
        ensures
            r == self.validate_action_spec(organism_entry.1, action),
    {
        match action {
            Action::Move(motion) => self.validate_move(organism_entry, motion),
            Action::InPlace => true,
        }
    }

    /// How a state changes when the organism `id` is committed to `target`:
    /// its registry entry records `target`, the grid cell at `target` is
    /// marked `id`, and everything else is untouched.
    pub open spec fn moved_to(self, s1: State, id: u32, target: (int, int)) -> bool {
        &&& s1.organisms@.len() == self.organisms@.len()
        &&& forall|i: int|
            0 <= i < self.organisms@.len() && self.key_at(i) != id ==> #[trigger] s1.organisms@[i]
                == self.organisms@[i]
        &&& forall|i: int|
            0 <= i < self.organisms@.len() && self.key_at(i) == id ==> idx(
                (#[trigger] s1.org_at(i)).position,
            ) == target && s1.org_at(i).color == self.org_at(i).color && s1.key_at(i) == id
        &&& s1.grid.cell_value(target.0, target.1) == id
        &&& forall|rr: int, cc: int|
            self.grid.in_bounds((rr, cc)) && (rr, cc) != target
                ==> #[trigger] s1.grid.cell_value(rr, cc) == self.grid.cell_value(rr, cc)
    }

    /// Commits a single move for the snapshot entry `organism_entry`,
    /// marking the cell one step from the snapshot position.
    pub fn handle_move(&mut self, organism_entry: (u32, Organism), motion: MoveAction)
        requires
            old(self).wf(),
            old(self).has_key(organism_entry.0),
            old(self).grid.in_bounds(move_target(idx(organism_entry.1.position), motion)),
        ensures
            final(self).wf(),
            final(self).grid.same_shape(old(self).grid),
            final(self).ids == old(self).ids,
            old(self).moved_to(
                *final(self),
                organism_entry.0,
                move_target(idx(organism_entry.1.position), motion),
            ),
    {
        let (id, organism) = organism_entry;
        let result = match motion {
            MoveAction::Forward => {
                let (x, y) = organism.position;
                self.change_organism_position(id, (x + 1, y))
            },
            MoveAction::Backward => {
                let (x, y) = organism.position;
                self.change_organism_position(id, (x - 1, y))
            },
            MoveAction::Down => {
                let (x, y) = organism.position;
                self.change_organism_position(id, (x, y + 1))
            },
            MoveAction::Up => {
                let (x, y) = organism.position;
                self.change_organism_position(id, (x, y - 1))
            },
        };
        proof {
            assert(result is Ok);
        }
    }

    /// Commits a no-op for the snapshot entry: the organism keeps its
    /// snapshot position, but its cell must be re-marked because the grid
    /// was cleared at the start of the commit phase.
    pub fn handle_inplace(&mut self, organism_entry: (u32, Organism))
        requires
            old(self).wf(),
            old(self).has_key(organism_entry.0),
            old(self).grid.in_bounds(idx(organism_entry.1.position)),
        ensures
            final(self).wf(),
            final(self).grid.same_shape(old(self).grid),
            final(self).ids == old(self).ids,
            old(self).moved_to(*final(self), organism_entry.0, idx(organism_entry.1.position)),
    {
        let (id, organism) = organism_entry;
        let result = self.change_organism_position(id, organism.position);
        proof {
            assert(result is Ok);
        }
    }

    /// Commits one validated action for a snapshot entry.
    pub fn handle_action(&mut self, organism_entry: (u32, Organism), action: Action)
        requires
            old(self).wf(),
            old(self).has_key(organism_entry.0),
            old(self).grid.in_bounds(action_target(idx(organism_entry.1.position), action)),
        ensures
            final(self).wf(),
            final(self).grid.same_shape(old(self).grid),
            final(self).ids == old(self).ids,
            old(self).moved_to(
                *final(self),
                organism_entry.0,
                action_target(idx(organism_entry.1.position), action),
            ),
    {
        match action {
            Action::Move(motion) => self.handle_move(organism_entry, motion),
            Action::InPlace => self.handle_inplace(organism_entry),
        }
    }

    /// Where the `i`th registry entry ends up after one tick: one step along
    /// the policy's proposal where that proposal validates against the
    /// pre-tick grid, its current cell otherwise.
    pub open spec fn step_target(self, i: int) -> (int, int) {
        let org = self.org_at(i);
        if self.validate_action_spec(org, policy_action(org)) {
            action_target(idx(org.position), policy_action(org))
        } else {
            idx(org.position)
        }
    }

    /// One tick: snapshot the registry, ask the policy for an action per
    /// organism, downgrade every action that does not validate against the
    /// pre-tick grid to `InPlace`, clear the grid, and commit the actions in
    /// registry order. Where two organisms commit to the same cell the later
    /// entry's id wins (the earlier organism's id is absent from the grid,
    /// though its registry position still claims that cell).
    #[verifier::rlimit(60)]
    pub fn step(&mut self)
        requires
            old(self).wf(),
        ensures
            final(self).wf(),
            final(self).grid.same_shape(old(self).grid),
            final(self).ids == old(self).ids,
            final(self).organisms@.len() == old(self).organisms@.len(),
            forall|i: int|
                0 <= i < old(self).organisms@.len() ==> #[trigger] final(self).key_at(i) == old(
                    self,
                ).key_at(i) && final(self).org_at(i).color == old(self).org_at(i).color,
            forall|i: int|
                0 <= i < old(self).organisms@.len() ==> idx(
                    (#[trigger] final(self).org_at(i)).position,
                ) == old(self).step_target(i),
            forall|r: int, c: int|
                old(self).grid.in_bounds((r, c)) && (forall|i: int|
                    0 <= i < old(self).organisms@.len() ==> #[trigger] old(self).step_target(i)
                        != (r, c)) ==> #[trigger] final(self).grid.cell_value(r, c) == 0,
            forall|i: int|
                0 <= i < old(self).organisms@.len() && (forall|j: int|
                    i < j < old(self).organisms@.len() ==> #[trigger] old(self).step_target(j)
                        != old(self).step_target(i)) ==> final(self).grid.cell_value(
                    old(self).step_target(i).0,
                    old(self).step_target(i).1,
                ) == old(self).key_at(i),
    {
        let ghost s0 = *old(self);
        let n = self.organisms.len();
        let mut valid_action_pairs: Vec<((u32, Organism), Action)> = Vec::new();
        let mut i: usize = 0;
        while i < n
            invariant
                *self == s0,
                s0.wf(),
                n == s0.organisms@.len(),
                i <= n,
                valid_action_pairs@.len() == i,
                forall|k: int|
                    0 <= k < i ==> (#[trigger] valid_action_pairs@[k]).0 == s0.organisms@[k],
                forall|k: int|
                    0 <= k < i ==> action_target(
                        idx(s0.org_at(k).position),
                        (#[trigger] valid_action_pairs@[k]).1,
                    ) == s0.step_target(k),
                forall|k: int|
                    0 <= k < i ==> s0.grid.in_bounds(
                        action_target(
                            idx(s0.org_at(k).position),
                            (#[trigger] valid_action_pairs@[k]).1,
                        ),
                    ),
            decreases n - i,
        {
            let organism_entry = self.organisms[i];
            let action = organism_entry.1.get_action();
            proof {
                assert(s0.grid.in_bounds(idx(s0.org_at(i as int).position)));
            }
            if self.validate_action(organism_entry, action) {
                valid_action_pairs.push((organism_entry, action));
            } else {
                valid_action_pairs.push((organism_entry, Action::InPlace));
            }
            i = i + 1;
        }
        self.grid.reset();
        proof {
            assert forall|t: int|
                0 <= t < self.organisms@.len() implies 2 <= (#[trigger] self.key_at(t)) as int
                <= self.ids@.len() + 1 by {
                assert(2 <= s0.key_at(t) as int <= s0.ids@.len() + 1);
            }
            assert forall|t: int, l: int|
                0 <= t < l < self.organisms@.len() implies #[trigger] self.key_at(t)
                < #[trigger] self.key_at(l) by {
                assert(s0.key_at(t) < s0.key_at(l));
            }
            assert forall|t: int|
                0 <= t < self.organisms@.len() implies self.grid.in_bounds(
                idx((#[trigger] self.org_at(t)).position),
            ) by {
                assert(s0.grid.in_bounds(idx(s0.org_at(t).position)));
            }
        }
        let mut k: usize = 0;
        while k < n
            invariant
                s0.wf(),
                n == s0.organisms@.len(),
                self.wf(),
                self.grid.same_shape(s0.grid),
                self.ids == s0.ids,
                self.organisms@.len() == n,
                k <= n,
                valid_action_pairs@.len() == n,
                forall|t: int|
                    0 <= t < n ==> (#[trigger] valid_action_pairs@[t]).0 == s0.organisms@[t],
                forall|t: int|
                    0 <= t < n ==> action_target(
                        idx(s0.org_at(t).position),
                        (#[trigger] valid_action_pairs@[t]).1,
                    ) == s0.step_target(t),
                forall|t: int|
                    0 <= t < n ==> s0.grid.in_bounds(
                        action_target(
                            idx(s0.org_at(t).position),
                            (#[trigger] valid_action_pairs@[t]).1,
                        ),
                    ),
                forall|t: int|
                    0 <= t < n ==> #[trigger] self.key_at(t) == s0.key_at(t) && self.org_at(
                        t,
                    ).color == s0.org_at(t).color,
                forall|t: int| k <= t < n ==> #[trigger] self.organisms@[t] == s0.organisms@[t],
                forall|t: int|
                    0 <= t < k ==> idx((#[trigger] self.org_at(t)).position) == s0.step_target(t),
                forall|r: int, c: int|
                    s0.grid.in_bounds((r, c)) && (forall|t: int|
                        0 <= t < k ==> #[trigger] s0.step_target(t) != (r, c))
                        ==> #[trigger] self.grid.cell_value(r, c) == 0,
                forall|t: int|
                    0 <= t < k && (forall|j: int|
                        t < j < k ==> #[trigger] s0.step_target(j) != s0.step_target(t))
                        ==> self.grid.cell_value(
                        s0.step_target(t).0,
                        s0.step_target(t).1,
                    ) == s0.key_at(t),
            decreases n - k,
        {
            let pair = valid_action_pairs[k];
            let organism_entry = pair.0;
            let action = pair.1;
            proof {
                assert(self.key_at(k as int) == organism_entry.0);
                assert(self.has_key(organism_entry.0));
            }
            let ghost pre = *self;
            self.handle_action(organism_entry, action);
            proof {
                let kk = k as int;
                let target = s0.step_target(kk);
                let id = organism_entry.0;
                assert(pre.moved_to(*self, id, target));
                assert forall|t: int| k + 1 <= t < n implies #[trigger] self.organisms@[t]
                    == s0.organisms@[t] by {
                    assert(pre.key_at(t) != id);
                    assert(self.organisms@[t] == pre.organisms@[t]);
                }
                assert forall|t: int|
                    0 <= t < k + 1 implies idx((#[trigger] self.org_at(t)).position)
                    == s0.step_target(t) by {
                    if t < kk {
                        if s0.key_at(t) != id {
                            assert(self.organisms@[t] == pre.organisms@[t]);
                        } else {
                            assert(s0.key_at(t) < s0.key_at(kk));
                            assert(false);
                        }
                    } else {
                        assert(pre.key_at(kk) == id);
                    }
                }
                assert forall|t: int|
                    0 <= t < n implies #[trigger] self.key_at(t) == s0.key_at(t) && self.org_at(
                    t,
                ).color == s0.org_at(t).color by {
                    assert(pre.key_at(t) == s0.key_at(t));
                    assert(pre.org_at(t).color == s0.org_at(t).color);
                    if pre.key_at(t) != id {
                        assert(self.organisms@[t] == pre.organisms@[t]);
                    } else {
                        assert(self.org_at(t).color == pre.org_at(t).color);
                        assert(self.key_at(t) == id);
                    }
                }
                assert forall|r: int, c: int|
                    s0.grid.in_bounds((r, c)) && (forall|t: int|
                        0 <= t < k + 1 ==> #[trigger] s0.step_target(t) != (r, c))
                        implies #[trigger] self.grid.cell_value(r, c) == 0 by {
                    assert(s0.step_target(kk) != (r, c));
                    assert((r, c) != target);
                    assert(self.grid.cell_value(r, c) == pre.grid.cell_value(r, c));
                }
                assert forall|t: int|
                    0 <= t < k + 1 && (forall|j: int|
                        t < j < k + 1 ==> #[trigger] s0.step_target(j) != s0.step_target(t))
                        implies self.grid.cell_value(
                    s0.step_target(t).0,
                    s0.step_target(t).1,
                ) == s0.key_at(t) by {
                    if t == kk {
                        assert(self.grid.cell_value(target.0, target.1) == id);
                    } else {
                        assert(s0.step_target(kk) != s0.step_target(t));
                        assert(s0.grid.in_bounds(s0.step_target(t)));
                        assert(self.grid.cell_value(s0.step_target(t).0, s0.step_target(t).1)
                            == pre.grid.cell_value(s0.step_target(t).0, s0.step_target(t).1));
                    }
                }
            }
            k = k + 1;
        }
    }

    /// Every occupied grid cell's id belongs to a registry entry whose
    /// recorded position is that cell.
    pub open spec fn grid_matches_registry(self) -> bool {
        forall|r: int, c: int|
            self.grid.in_bounds((r, c)) && #[trigger] self.grid.cell_value(r, c) != 0
                ==> exists|i: int|
                0 <= i < self.organisms@.len() && #[trigger] self.key_at(i)
                    == self.grid.cell_value(r, c) && idx(self.org_at(i).position) == (r, c)
    }

    /// Draws `num_organisms` distinct cells uniformly at random (a full
    /// shuffle of all cell numbers, taking a prefix) and initializes an
    /// organism at each. Succeeds exactly when the request does not exceed
    /// the grid's capacity; on a fully unoccupied grid the population count
    /// afterwards is `num_organisms` and grid and registry agree.
    pub fn initialize_organisms_random(&mut self, num_organisms: usize) -> (r: Result<
        (),
        SimError,
    >)
        requires
            old(self).wf(),
            old(self).ids@.len() + num_organisms + 1 <= u32::MAX,
        ensures
            final(self).wf(),
            final(self).grid.same_shape(old(self).grid),
            r is Ok <==> num_organisms <= old(self).grid.num_rows * old(self).grid.num_cols,
            r is Err ==> *final(self) == *old(self) && r == Err::<(), SimError>(
                SimError::CapacityExceeded,
            ),
            r is Ok ==> {
                &&& final(self).organisms@.len() == old(self).organisms@.len() + num_organisms
                &&& final(self).ids@.len() == old(self).ids@.len() + num_organisms
                &&& forall|i: int|
                    0 <= i < old(self).organisms@.len() ==> #[trigger] final(self).organisms@[i]
                        == old(self).organisms@[i]
                &&& forall|i: int, j: int|
                    old(self).organisms@.len() <= i < j < final(self).organisms@.len() ==> (
                    #[trigger] final(self).org_at(i)).position != (#[trigger] final(self).org_at(
                        j,
                    )).position
                &&& forall|i: int|
                    old(self).organisms@.len() <= i < final(self).organisms@.len()
                        ==> final(self).grid.cell_value(
                        idx((#[trigger] final(self).org_at(i)).position).0,
                        idx(final(self).org_at(i).position).1,
                    ) == final(self).key_at(i)
                &&& forall|rr: int, cc: int|
                    old(self).grid.in_bounds((rr, cc)) && (forall|i: int|
                        old(self).organisms@.len() <= i < final(self).organisms@.len() ==> idx(
                            (#[trigger] final(self).org_at(i)).position,
                        ) != (rr, cc)) ==> #[trigger] final(self).grid.cell_value(rr, cc) == old(
                        self,
                    ).grid.cell_value(rr, cc)
                &&& (forall|rr: int, cc: int|
                    old(self).grid.in_bounds((rr, cc)) ==> #[trigger] old(self).grid.cell_value(
                        rr,
                        cc,
                    ) == 0) ==> final(self).grid.occupied_count() == num_organisms
                    && final(self).grid_matches_registry()
            },
    {
        let ghost s0 = *old(self);
        let ghost m0 = s0.organisms@.len() as int;
        let num_rows = self.grid.num_rows;
        let num_cols = self.grid.num_cols;
        let capacity = num_rows * num_cols;
        if num_organisms > capacity {
            return Err(SimError::CapacityExceeded);
        }
        let mut cell_indices: Vec<usize> = Vec::new();
        let mut i: usize = 0;
        while i < capacity
            invariant
                i <= capacity,
                cell_indices@.len() == i,
                forall|t: int| 0 <= t < i ==> (#[trigger] cell_indices@[t]) as int == t,
            decreases capacity - i,
        {
            cell_indices.push(i);
            i = i + 1;
        }
        let ghost pre_shuffle = cell_indices@;
        shuffle_in_place(&mut cell_indices);
        proof {
            broadcast use vstd::seq_lib::group_to_multiset_ensures;

            assert(pre_shuffle.no_duplicates());
            pre_shuffle.lemma_multiset_has_no_duplicates();
            assert forall|x: usize| cell_indices@.to_multiset().contains(x) implies cell_indices@.to_multiset().count(x) == 1 by {
                assert(cell_indices@.to_multiset() == pre_shuffle.to_multiset());
            }
            cell_indices@.lemma_multiset_has_no_duplicates_conv();
            assert forall|t: int|
                0 <= t < cell_indices@.len() implies (#[trigger] cell_indices@[t]) < capacity by {
                let v = cell_indices@[t];
                assert(cell_indices@.contains(v));
                assert(cell_indices@.to_multiset().count(v) > 0);
                assert(pre_shuffle.to_multiset().count(v) > 0);
                assert(pre_shuffle.contains(v));
                let q = choose|q: int| 0 <= q < pre_shuffle.len() && pre_shuffle[q] == v;
                assert(v as int == q);
            }
        }
        let ghost allz = forall|rr: int, cc: int|
            s0.grid.in_bounds((rr, cc)) ==> #[trigger] s0.grid.cell_value(rr, cc) == 0;
        proof {
            if allz {
                assert forall|rr: int, cc: int|
                    0 <= rr < self.grid.cells@.len() && 0 <= cc < self.grid.cells@[rr]@.len()
                        implies (self.grid.cells@[rr]@[cc]).value == 0 by {
                    assert(s0.grid.in_bounds((rr, cc)));
                    assert(s0.grid.cell_value(rr, cc) == 0);
                }
                crate::grid::lemma_occupied_zero(self.grid.cells@, self.grid.cells@.len() as int);
            }
        }
        let mut k: usize = 0;
        while k < num_organisms
            invariant
                s0.wf(),
                self.wf(),
                self.grid.same_shape(s0.grid),
                num_rows == s0.grid.num_rows,
                num_cols == s0.grid.num_cols,
                capacity == num_rows * num_cols,
                num_organisms <= capacity,
                s0.ids@.len() + num_organisms + 1 <= u32::MAX,
                k <= num_organisms,
                m0 == s0.organisms@.len(),
                cell_indices@.len() == capacity,
                cell_indices@.no_duplicates(),
                forall|t: int| 0 <= t < capacity ==> (#[trigger] cell_indices@[t]) < capacity,
                self.ids@.len() == s0.ids@.len() + k,
                self.organisms@.len() == m0 + k,
                forall|i: int| 0 <= i < m0 ==> #[trigger] self.organisms@[i] == s0.organisms@[i],
                forall|i: int|
                    m0 <= i < m0 + k ==> idx((#[trigger] self.org_at(i)).position)
                        == linear_position(cell_indices@[i - m0] as int, num_rows as int),
                forall|i: int|
                    m0 <= i < m0 + k ==> self.grid.cell_value(
                        idx((#[trigger] self.org_at(i)).position).0,
                        idx(self.org_at(i).position).1,
                    ) == self.key_at(i),
                forall|rr: int, cc: int|
                    s0.grid.in_bounds((rr, cc)) && (forall|i: int|
                        m0 <= i < m0 + k ==> idx((#[trigger] self.org_at(i)).position) != (
                        rr,
                        cc,
                        )) ==> #[trigger] self.grid.cell_value(rr, cc) == s0.grid.cell_value(
                        rr,
                        cc,
                    ),
                allz == (forall|rr: int, cc: int|
                    s0.grid.in_bounds((rr, cc)) ==> #[trigger] s0.grid.cell_value(rr, cc) == 0),
                allz ==> self.grid.occupied_count() == k,
            decreases num_organisms - k,
        {
            let index = cell_indices[k];
            proof {
                assert(num_rows > 0) by (nonlinear_arith)
                    requires
                        capacity == num_rows * num_cols,
                        capacity > 0,
                ;
                lemma_linear_position_in_bounds(index as int, num_rows as int, num_cols as int);
            }
            let position = (index % num_rows, index / num_rows);
            let ghost pre = *self;
            self.initialize_organism(position);
            proof {
                let kk = k as int;
                assert forall|i: int|
                    m0 <= i < m0 + kk implies idx((#[trigger] self.org_at(i)).position)
                    != idx(position) by {
                    assert(self.organisms@[i] == pre.organisms@[i]);
                    assert(idx(pre.org_at(i).position) == linear_position(
                        cell_indices@[i - m0] as int,
                        num_rows as int,
                    ));
                    assert(cell_indices@[i - m0] != cell_indices@[kk]);
                    lemma_linear_position_injective(
                        cell_indices@[i - m0] as int,
                        cell_indices@[kk] as int,
                        num_rows as int,
                    );
                }
                assert forall|i: int|
                    m0 <= i < m0 + (kk + 1) implies idx((#[trigger] self.org_at(i)).position)
                    == linear_position(cell_indices@[i - m0] as int, num_rows as int) by {
                    if i < m0 + kk {
                        assert(self.organisms@[i] == pre.organisms@[i]);
                        assert(idx(pre.org_at(i).position) == linear_position(
                            cell_indices@[i - m0] as int,
                            num_rows as int,
                        ));
                    } else {
                        assert(i == m0 + kk);
                        assert(cell_indices@[i - m0] == index);
                        assert(self.org_at(i).position == position);
                        assert((index % num_rows) as int == (index as int) % (num_rows as int));
                        assert((index / num_rows) as int == (index as int) / (num_rows as int));
                    }
                }
                assert forall|i: int|
                    m0 <= i < m0 + (kk + 1) implies self.grid.cell_value(
                    idx((#[trigger] self.org_at(i)).position).0,
                    idx(self.org_at(i).position).1,
                ) == self.key_at(i) by {
                    if i < m0 + kk {
                        assert(self.organisms@[i] == pre.organisms@[i]);
                        assert(idx(self.org_at(i).position) != idx(position));
                        assert(idx(pre.org_at(i).position) != idx(position));
                        assert(pre.grid.cell_value(
                            idx(pre.org_at(i).position).0,
                            idx(pre.org_at(i).position).1,
                        ) == pre.key_at(i));
                        assert(pre.grid.in_bounds(idx(pre.org_at(i).position)));
                    } else {
                        assert(self.org_at(i).position == position);
                    }
                }
                assert forall|rr: int, cc: int|
                    s0.grid.in_bounds((rr, cc)) && (forall|i: int|
                        m0 <= i < m0 + (kk + 1) ==> idx((#[trigger] self.org_at(i)).position) != (
                        rr,
                        cc,
                        )) implies #[trigger] self.grid.cell_value(rr, cc) == s0.grid.cell_value(
                    rr,
                    cc,
                ) by {
                    assert(idx(self.org_at(m0 + kk).position) != (rr, cc));
                    assert(idx(position) != (rr, cc));
                    assert forall|i: int|
                        m0 <= i < m0 + kk implies idx((#[trigger] pre.org_at(i)).position) != (
                        rr,
                        cc,
                    ) by {
                        assert(self.organisms@[i] == pre.organisms@[i]);
                        assert(idx(self.org_at(i).position) != (rr, cc));
                    }
                    assert(pre.grid.cell_value(rr, cc) == s0.grid.cell_value(rr, cc));
                }
                if allz {
                    assert(pre.grid.cell_value(idx(position).0, idx(position).1)
                        == s0.grid.cell_value(idx(position).0, idx(position).1)) by {
                        assert forall|i: int|
                            m0 <= i < m0 + kk implies idx((#[trigger] pre.org_at(i)).position)
                            != idx(position) by {
                            assert(pre.organisms@[i] == self.organisms@[i]);
                            assert(idx(self.org_at(i).position) != idx(position));
                        }
                    }
                    assert(s0.grid.cell_value(idx(position).0, idx(position).1) == 0);
                    assert(self.grid.occupied_count() == kk + 1);
                }
            }
            k = k + 1;
        }
        proof {
            assert forall|i: int, j: int|
                m0 <= i < j < self.organisms@.len() implies (#[trigger] self.org_at(i)).position
                != (#[trigger] self.org_at(j)).position by {
                assert(cell_indices@[i - m0] != cell_indices@[j - m0]);
                lemma_linear_position_injective(
                    cell_indices@[i - m0] as int,
                    cell_indices@[j - m0] as int,
                    num_rows as int,
                );
                assert(idx(self.org_at(i).position) != idx(self.org_at(j).position));
            }
            if allz {
                assert forall|r: int, c: int|
                    self.grid.in_bounds((r, c)) && #[trigger] self.grid.cell_value(r, c)
                        != 0 implies exists|i: int|
                    0 <= i < self.organisms@.len() && #[trigger] self.key_at(i)
                        == self.grid.cell_value(r, c) && idx(self.org_at(i).position) == (
                    r,
                    c,
                ) by {
                    if forall|i: int|
                        m0 <= i < m0 + num_organisms ==> idx((#[trigger] self.org_at(i)).position)
                            != (r, c) {
                        assert(self.grid.cell_value(r, c) == s0.grid.cell_value(r, c));
                        assert(false);
                    } else {
                        let w = choose|i: int|
                            m0 <= i < m0 + num_organisms && idx(
                                (#[trigger] self.org_at(i)).position,
                            ) == (r, c);
                        assert(self.grid.cell_value(r, c) == self.key_at(w));
                    }
                }
            }
        }
        Ok(())
    }

    /// The registry entry for `id`, if any: the organism of the unique
    /// entry carrying that id.
    pub open spec fn lookup(self, id: u32) -> Option<Organism> {
        if self.has_key(id) {
            Some(
                self.org_at(
                    choose|i: int|
                        0 <= i < self.organisms@.len() && #[trigger] self.key_at(i) == id,
                ),
            )
        } else {
            None
        }
    }

    /// Finds the organism registered under `id`.
    pub fn get_organism(&self, id: u32) -> (r: Option<Organism>)
        requires
            self.wf(),
        ensures
            r == self.lookup(id),
            r is Some <==> self.has_key(id),
    {
        let n = self.organisms.len();
        let mut i: usize = 0;
        while i < n
            invariant
                self.wf(),
                n == self.organisms@.len(),
                i <= n,
                forall|k: int| 0 <= k < i ==> #[trigger] self.key_at(k) != id,
            decreases n - i,
        {
            if self.organisms[i].0 == id {
                proof {
                    assert(self.key_at(i as int) == id);
                    assert(self.has_key(id));
                    let w = choose|w: int|
                        0 <= w < self.organisms@.len() && #[trigger] self.key_at(w) == id;
                    if w != i as int {
                        if w < i as int {
                            assert(self.key_at(w) < self.key_at(i as int));
                        } else {
                            assert(self.key_at(i as int) < self.key_at(w));
                        }
                    }
                }
                return Some(self.organisms[i].1);
            }
            i = i + 1;
        }
        None
    }

    /// The population count: the number of occupied grid cells.
    pub fn num_organisms(&self) -> (r: usize)
        requires
            self.wf(),
        ensures
            r as int == self.grid.occupied_count(),
    {
        self.grid.num_set()
    }
}


/// A move toward an edge is never validated from a position already at that
/// edge, whatever the occupancy of the grid; a proposal to stay in place is
/// validated unconditionally.
pub proof fn lemma_validate_at_edge(s: State, org: Organism)
    requires
        s.wf(),
        s.grid.in_bounds(idx(org.position)),
    ensures
        idx(org.position).1 == 0 ==> !s.validate_action_spec(org, Action::Move(MoveAction::Up)),
        idx(org.position).1 == s.grid.num_cols - 1 ==> !s.validate_action_spec(
            org,
            Action::Move(MoveAction::Down),
        ),
        idx(org.position).0 == 0 ==> !s.validate_action_spec(
            org,
            Action::Move(MoveAction::Backward),
        ),
        idx(org.position).0 == s.grid.num_rows - 1 ==> !s.validate_action_spec(
            org,
            Action::Move(MoveAction::Forward),
        ),
        s.validate_action_spec(org, Action::InPlace),
{
}

/// Round trip: in any state reached by moving the organism `id` to `p`
/// (the registry records `p` for `id` and the grid cell at `p` is marked
/// `id`, as `change_organism_position` ensures on success), looking up `id`
/// yields an organism whose position is `p`, and the cell at `p` is set,
/// holding exactly `id`.
pub proof fn lemma_position_round_trip(s0: State, s1: State, id: u32, p: CellIndex)
    requires
        s0.wf(),
        s1.wf(),
        s1.organisms@.len() == s0.organisms@.len(),
        s0.has_key(id),
        forall|i: int|
            0 <= i < s0.organisms@.len() && s0.key_at(i) != id ==> #[trigger] s1.organisms@[i]
                == s0.organisms@[i],
        forall|i: int|
            0 <= i < s0.organisms@.len() && s0.key_at(i) == id ==> (
            #[trigger] s1.org_at(i)).position == p && s1.key_at(i) == id,
        s1.grid.cell_value(idx(p).0, idx(p).1) == id,
    ensures
        (s1.lookup(id) matches Some(o) && o.position == p),
        s1.grid.cell_value(idx(p).0, idx(p).1) == id && id != 0,
{
    let w0 = choose|i: int| 0 <= i < s0.organisms@.len() && #[trigger] s0.key_at(i) == id;
    assert((s1.org_at(w0)).position == p && s1.key_at(w0) == id);
    assert(s1.has_key(id));
    let w1 = choose|i: int| 0 <= i < s1.organisms@.len() && #[trigger] s1.key_at(i) == id;
    if w1 != w0 {
        if w1 < w0 {
            assert(s1.key_at(w1) < s1.key_at(w0));
        } else {
            assert(s1.key_at(w0) < s1.key_at(w1));
        }
    }
    if s0.key_at(w1) != id {
        assert(s1.organisms@[w1] == s0.organisms@[w1]);
        assert(false);
    }
    assert(s1.org_at(w1).position == p);
    assert(2 <= s0.key_at(w0) as int);
}



} // verus!
