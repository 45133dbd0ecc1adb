//! The automaton: a grid of cells, a table of rules, and the cells that are
//! due at the next step.

use crate::errors::StepError;
use crate::grid::apoint::APoint;
use crate::grid::grid_2d::{place_of, position_of, Grid2D};
use crate::grid::neighbourhood::{
    holds, is_neighbourhood, is_neighbourhood_of, on_grid, place_neighbourhood,
    relative_neighbourhood_coords, MissingNeighbourhoodSize, NType, Neighbours,
};
use crate::grid::point::point::{IsPoint, Point};
use crate::rule::{applied, states_of, Rule, Rules};
use crate::state::State;
use vstd::prelude::*;

verus! {

/// struct containing all the cells, rules / transitions, and cells that need
/// to be updated for the current step
pub struct Automaton2D<T, U> {
    grid: Grid2D<APoint<T>>,
    topology: Option<(NType, i32)>,
    rules: Rules<U>,
    update_cells: Vec<Point>,
}

/// Whether `around` holds the neighbours of the cell at `at` on a grid of
/// extent `max_dims`, where `shape` holds the offsets of neighbours: the
/// cells of the grid, `at` itself left out, whose offset from `at` is in
/// `shape`.
pub open spec fn wired_to(around: Seq<Point>, shape: Seq<Point>, at: Point, max_dims: Point) -> bool {
    &&& shape.no_duplicates() ==> around.no_duplicates()
    &&& forall|p: Point| #[trigger]
        around.contains(p) <==> p != at && on_grid(p, max_dims) && shape.contains(p.minus(at))
}

/// The coordinates of the first `upto` of `cells`, each once, in the order
/// in which they first occur.
pub open spec fn coords_once<T>(cells: Seq<APoint<T>>, upto: int) -> Seq<Point>
    decreases upto,
{
    if upto <= 0 {
        Seq::empty()
    } else {
        let before = coords_once(cells, upto - 1);
        if before.contains(cells[upto - 1].coord()) {
            before
        } else {
            before.push(cells[upto - 1].coord())
        }
    }
}

/// The current state of the cell at `at`: of the first of `cells` that
/// stands there. None where no cell stands there or the cell has no state.
pub open spec fn state_at<T>(cells: Seq<APoint<T>>, at: Point) -> Option<State<T>> {
    match place_of(cells, at) {
        Some(index) => cells[index].spec_cur_state(),
        None => None,
    }
}

/// Whether each of the cells at `around` has a current state.
pub open spec fn all_known<T>(cells: Seq<APoint<T>>, around: Seq<Point>) -> bool {
    forall|k: int| 0 <= k < around.len() ==> state_at(cells, #[trigger] around[k]) is Some
}

/// The current states of the cells at `around`, in the order of `around`.
pub open spec fn states_around<T>(cells: Seq<APoint<T>>, around: Seq<Point>) -> Seq<State<T>> {
    Seq::new(around.len(), |k: int| state_at(cells, around[k])->0)
}

/// Why the cell at `at` cannot be given its next state, if it cannot. A
/// cell with no current state has none to advance from and is passed over;
/// else the states of the neighbours are read first and the rule is looked
/// up second.
pub open spec fn failure_at<T, U>(
    cells: Seq<APoint<T>>,
    rules: Map<Seq<char>, U>,
    at: Point,
) -> Option<StepError> {
    match place_of(cells, at) {
        Some(index) => match cells[index].spec_cur_state() {
            Some(current) => if !all_known(cells, cells[index].spec_neighbours()) {
                Some(StepError::MissingNeighbourState)
            } else if !rules.contains_key(current.spec_name()) {
                Some(StepError::MissingRule)
            } else {
                None
            },
            None => None,
        },
        None => None,
    }
}

/// Whether `staged` is a next state for the cell at `at`: what the rule for
/// its current state made of that state and of the current states of its
/// neighbours; nothing where the cell has no current state.
pub open spec fn staged_for<T, U: Rule<T>>(
    cells: Seq<APoint<T>>,
    rules: Map<Seq<char>, U>,
    at: Point,
    staged: Option<State<T>>,
) -> bool {
    match state_at(cells, at) {
        Some(current) => staged is Some && applied(
            rules[current.spec_name()],
            states_around(cells, cells[place_of(cells, at)->0].spec_neighbours()),
            current,
            staged->0,
        ),
        None => staged is None,
    }
}

/// Whether the cell at `at` changes its state when `staged` is installed:
/// when there is such a cell, something is staged for it, and its current
/// state is none or goes by another name.
pub open spec fn changes<T>(cells: Seq<APoint<T>>, at: Point, staged: Option<State<T>>) -> bool {
    &&& place_of(cells, at) is Some
    &&& staged is Some
    &&& match state_at(cells, at) {
        Some(current) => current.spec_name() != staged->0.spec_name(),
        None => true,
    }
}

/// Those of the first `upto` of `due` whose cell changes its state when
/// `staged` is installed, in the order of `due`.
pub open spec fn changed<T>(
    cells: Seq<APoint<T>>,
    due: Seq<Point>,
    staged: Seq<Option<State<T>>>,
    upto: int,
) -> Seq<Point>
    decreases upto,
{
    if upto <= 0 {
        Seq::empty()
    } else {
        let before = changed(cells, due, staged, upto - 1);
        if changes(cells, due[upto - 1], staged[upto - 1]) {
            before.push(due[upto - 1])
        } else {
            before
        }
    }
}

impl<T, U: Rule<T>> Automaton2D<T, U> {
    /// The cells of the grid, in the order in which they were seeded.
    pub closed spec fn cells(&self) -> Seq<APoint<T>> {
        self.grid@
    }

    /// The extent of the grid: its width as `x`, its height as `y`.
    pub closed spec fn dims(&self) -> Point {
        self.grid.dims()
    }

    /// The topology and the radius under which cells are wired to their
    /// neighbours, once one was set.
    pub closed spec fn topology(&self) -> Option<(NType, int)> {
        match self.topology {
            Some((n_type, size)) => Some((n_type, n_type.radius(Some(size))->0)),
            None => None,
        }
    }

    /// The table of rules: for the name of a state, its rule.
    pub closed spec fn rules(&self) -> Map<Seq<char>, U> {
        self.rules@
    }

    /// The coordinates of the cells that are due at the next step.
    pub closed spec fn due(&self) -> Seq<Point> {
        self.update_cells@
    }

    /// Every cell stands on the grid, and no cell is due twice.
    pub closed spec fn wf(&self) -> bool {
        &&& self.grid.wf()
        &&& self.update_cells@.no_duplicates()
    }

    /// What it is for an automaton to be well formed.
    pub proof fn lemma_wf(&self)
        requires
            self.wf(),
        ensures
            forall|index: int|
                0 <= index < self.cells().len() ==> on_grid(
                    (#[trigger] self.cells()[index]).coord(),
                    self.dims(),
                ),
            self.due().no_duplicates(),
    {
    }

    /// Return a new `Automaton2D` Struct: a grid of the given extent without
    /// cells, no topology, no rules, and nothing due.
    pub fn new(width: i32, height: i32) -> (automaton: Automaton2D<T, U>)
        ensures
            automaton.wf(),
            automaton.dims() == (Point { x: width, y: height }),
            automaton.cells() == Seq::<APoint<T>>::empty(),
            automaton.topology() is None,
            automaton.rules() == Map::<Seq<char>, U>::empty(),
            automaton.due() == Seq::<Point>::empty(),
    {
        Automaton2D {
            grid: Grid2D::new(width, height),
            topology: None,
            rules: Rules::new(),
            update_cells: Vec::new(),
        }
    }

    /// The grid, for reading between steps.
    pub fn grid(&self) -> (grid: &Grid2D<APoint<T>>)
        ensures
            grid@ == self.cells(),
            grid.dims() == self.dims(),
            self.wf() ==> grid.wf(),
    {
        &self.grid
    }

    /// The coordinates of the cells that are due at the next step.
    pub fn update_cells(&self) -> (due: &Vec<Point>)
        ensures
            due@ == self.due(),
    {
        &self.update_cells
    }

    /// The topology under which cells are wired to their neighbours, with
    /// its radius, once one was set.
    pub fn neighbourhood(&self) -> (topology: Option<(NType, i32)>)
        ensures
            match topology {
                Some((n_type, radius)) => self.topology() == Some((n_type, radius as int)),
                None => self.topology() is None,
            },
    {
        match self.topology {
            Some((n_type, size)) => match n_type {
                NType::Moore | NType::VonNeumann => Some((n_type, 1)),
                _ => Some((n_type, size)),
            },
            None => None,
        }
    }

    /// set the rules to the struct containing transitions for each state
    pub fn set_rules(&mut self, ruleset: Rules<U>)
        ensures
            final(self).rules() == ruleset@,
            final(self).cells() == old(self).cells(),
            final(self).dims() == old(self).dims(),
            final(self).topology() == old(self).topology(),
            final(self).due() == old(self).due(),
            old(self).wf() ==> final(self).wf(),
    {
        self.rules = ruleset;
    }

    /// Add cell to vector of cells that need to be updated at the next step,
    /// unless it is there already or the grid has no cell at that coordinate.
    pub fn add_ucell(&mut self, cell: Point)
        ensures
            final(self).due() == if !old(self).due().contains(cell) && place_of(
                old(self).cells(),
                cell,
            ) is Some {
                old(self).due().push(cell)
            } else {
                old(self).due()
            },
            final(self).cells() == old(self).cells(),
            final(self).dims() == old(self).dims(),
            final(self).topology() == old(self).topology(),
            final(self).rules() == old(self).rules(),
            old(self).wf() ==> final(self).wf(),
    {
        if !holds(&self.update_cells, &cell) && self.grid.find(&cell).is_some() {
            self.update_cells.push(cell);
        }
    }

    /// remove all cells from the update Vec
    pub fn clear_ucells(&mut self)
        ensures
            final(self).due() == Seq::<Point>::empty(),
            final(self).cells() == old(self).cells(),
            final(self).dims() == old(self).dims(),
            final(self).topology() == old(self).topology(),
            final(self).rules() == old(self).rules(),
            old(self).wf() ==> final(self).wf(),
    {
        self.update_cells.clear();
    }

    /// Set the initial points grid, if all of them stand on the grid, and
    /// say whether that was done. Every cell of the seed is then due. Where a
    /// topology was set, the cells are wired to their neighbours under it;
    /// else they come with the neighbours they were given.
    pub fn set_seed(&mut self, seed: Vec<APoint<T>>) -> (seeded: bool)
        ensures
            seeded == (forall|index: int|
                0 <= index < seed@.len() ==> on_grid(
                    (#[trigger] seed@[index]).coord(),
                    old(self).dims(),
                )),
            seeded ==> final(self).seeded_with(seed@) && final(self).due() == coords_once(
                seed@,
                seed@.len() as int,
            ),
            !seeded ==> final(self).cells() == old(self).cells() && final(self).due() == old(
                self,
            ).due(),
            final(self).dims() == old(self).dims(),
            final(self).topology() == old(self).topology(),
            final(self).rules() == old(self).rules(),
            seeded ==> final(self).wf(),
            old(self).wf() ==> final(self).wf(),
    {
        if !self.grid.set_points(seed) {
            return false;
        }
        let mut due: Vec<Point> = Vec::new();
        let mut index: usize = 0;
        while index < self.grid.points().len()
            invariant
                index <= self.grid@.len(),
                self.grid@ == seed@,
                self.grid.wf(),
                self.grid.dims() == old(self).dims(),
                self.topology == old(self).topology,
                self.rules == old(self).rules,
                due@ == coords_once(self.grid@, index as int),
                due@.no_duplicates(),
            decreases self.grid@.len() - index,
        {
            let cell = &self.grid.points()[index];
            let at = Point::new(cell.x(), cell.y());
            if !holds(&due, &at) {
                due.push(at);
            }
            index += 1;
        }
        self.update_cells = due;
        match self.topology {
            Some((n_type, radius)) => {
                let found = relative_neighbourhood_coords(n_type, Some(radius));
                assert(n_type.radius(Some(radius)) is Some);
                match found {
                    Ok(shape) => {
                        let mut cells = self.grid.take_points();
                        wire_cells(&mut cells, &shape, self.grid.max_dims());
                        proof {
                            lemma_wired(
                                seed@,
                                cells@,
                                shape@,
                                n_type,
                                n_type.radius(Some(radius))->0,
                                self.dims(),
                            );
                        }
                        let stored = self.grid.set_points(cells);
                        assert(stored);
                    },
                    Err(_) => {},
                }
            },
            None => {},
        }
        true
    }

    /// Whether the cells are those of `seed`, wired to their neighbours
    /// under the topology where there is one.
    pub open spec fn seeded_with(&self, seed: Seq<APoint<T>>) -> bool {
        &&& self.cells().len() == seed.len()
        &&& forall|index: int|
            0 <= index < seed.len() ==> match self.topology() {
                Some((n_type, radius)) => {
                    &&& (#[trigger] self.cells()[index]).coord() == seed[index].coord()
                    &&& self.cells()[index].spec_cur_state() == seed[index].spec_cur_state()
                    &&& self.cells()[index].spec_prev_state() == seed[index].spec_prev_state()
                    &&& is_neighbourhood_of(
                        self.cells()[index].spec_neighbours(),
                        n_type,
                        radius,
                        seed[index].coord(),
                        self.dims(),
                    )
                },
                None => self.cells()[index] == seed[index],
            }
    }

    /// Sets the topology and wires every cell to its neighbours under it: to
    /// the cells of the grid, itself left out, that the topology reaches from
    /// it. Without a size where the topology needs one, nothing changes.
    pub fn set_neighbourhood(&mut self, n_type: NType, n_size: Option<i32>) -> (wired: Result<
        (),
        MissingNeighbourhoodSize,
    >)
        requires
            old(self).wf(),
        ensures
            final(self).wf(),
            match n_type.radius(n_size) {
                Some(radius) => wired is Ok && final(self).wired_from(old(self), n_type, radius),
                None => wired is Err && *final(self) == *old(self),
            },
    {
        let shape = relative_neighbourhood_coords(n_type, n_size)?;
        let ghost radius = n_type.radius(n_size)->0;
        self.topology = Some(
            (
                n_type,
                match n_size {
                    Some(size) => size,
                    None => 1,
                },
            ),
        );
        let mut cells = self.grid.take_points();
        wire_cells(&mut cells, &shape, self.grid.max_dims());
        proof {
            lemma_wired(old(self).cells(), cells@, shape@, n_type, radius, self.dims());
        }
        let stored = self.grid.set_points(cells);
        assert(stored);
        Ok(())
    }

    /// Whether `self` is `before` with every cell wired to its neighbours
    /// under the given topology and radius: the cells stand where they stood
    /// and are in the states they were in.
    pub open spec fn wired_from(&self, before: &Self, n_type: NType, radius: int) -> bool {
        &&& self.topology() == Some((n_type, radius))
        &&& self.dims() == before.dims()
        &&& self.rules() == before.rules()
        &&& self.due() == before.due()
        &&& self.cells().len() == before.cells().len()
        &&& forall|index: int|
            0 <= index < self.cells().len() ==> {
                &&& (#[trigger] self.cells()[index]).coord() == before.cells()[index].coord()
                &&& self.cells()[index].spec_cur_state() == before.cells()[index].spec_cur_state()
                &&& self.cells()[index].spec_prev_state() == before.cells()[index].spec_prev_state()
                &&& is_neighbourhood_of(
                    self.cells()[index].spec_neighbours(),
                    n_type,
                    radius,
                    before.cells()[index].coord(),
                    before.dims(),
                )
            }
    }

    /// Computes the next state of each cell that is due, from the current
    /// states alone, and changes nothing. It has one entry for each cell that
    /// is due, in their order: nothing for a cell with no current state.
    /// Fails as the step does.
    pub fn stage(&self) -> (staged: Result<Vec<Option<State<T>>>, StepError>)
        ensures
            match staged {
                Ok(staged) => self.fails_nowhere() && self.stages(staged@),
                Err(error) => self.fails_with(error),
            },
    {
        let mut staged: Vec<Option<State<T>>> = Vec::new();
        let mut k: usize = 0;
        while k < self.update_cells.len()
            invariant
                k <= self.due().len(),
                staged@.len() == k,
                forall|j: int|
                    0 <= j < k ==> #[trigger] failure_at(self.cells(), self.rules(), self.due()[j])
                        is None,
                forall|j: int|
                    0 <= j < k ==> staged_for(
                        self.cells(),
                        self.rules(),
                        self.due()[j],
                        #[trigger] staged@[j],
                    ),
            decreases self.due().len() - k,
        {
            let at = self.update_cells[k];
            let ghost before = staged@;
            match self.grid.find(&at) {
                None => staged.push(None),
                Some(index) => {
                    let cell = &self.grid.points()[index];
                    match cell.cur_state() {
                        None => staged.push(None),
                        Some(current) => {
                            let around = match neighbour_states(
                                self.grid.points(),
                                cell.neighbours(),
                            ) {
                                Some(around) => around,
                                None => {
                                    assert(failure_at(self.cells(), self.rules(), self.due()[k as int])
                                        == Some(StepError::MissingNeighbourState));
                                    return Err(StepError::MissingNeighbourState);
                                },
                            };
                            let rule = match self.rules.rule_for(current) {
                                Some(rule) => rule,
                                None => {
                                    assert(failure_at(self.cells(), self.rules(), self.due()[k as int])
                                        == Some(StepError::MissingRule));
                                    return Err(StepError::MissingRule);
                                },
                            };
                            let next = rule.apply(&around, current);
                            assert(applied(
                                *rule,
                                states_around(self.cells(), cell.spec_neighbours()),
                                *current,
                                next,
                            ));
                            staged.push(Some(next));
                        },
                    }
                },
            }
            assert(forall|j: int| 0 <= j < k ==> staged@[j] == before[j]);
            assert(failure_at(self.cells(), self.rules(), self.due()[k as int]) is None);
            assert(staged_for(self.cells(), self.rules(), self.due()[k as int], staged@[k as int]));
            k += 1;
        }
        Ok(staged)
    }

    /// Installs what was staged, if there is one entry for each cell that is
    /// due, and says whether it did so. Each cell that is due and has a next
    /// state staged moves its current state into its previous state and takes
    /// the staged one as its current state. Due are then the cells that
    /// changed their state.
    pub fn commit(&mut self, staged: Vec<Option<State<T>>>) -> (committed: bool)
        requires
            old(self).wf(),
        ensures
            committed == (staged@.len() == old(self).due().len()),
            committed ==> final(self).committed_from(old(self), staged@),
            !committed ==> *final(self) == *old(self),
            final(self).wf(),
    {
        if staged.len() != self.update_cells.len() {
            return false;
        }
        let mut staged = staged;
        let ghost given = staged@;
        let ghost cells_before = self.grid@;
        let ghost due = self.update_cells@;
        assert(cells_before == old(self).cells() && due == old(self).due());
        let mut cells = self.grid.take_points();
        let mut changed_cells: Vec<Point> = Vec::new();
        let mut k: usize = 0;
        while k < self.update_cells.len()
            invariant
                k <= due.len() == given.len() == staged@.len(),
                due == self.update_cells@,
                self.grid.dims() == old(self).dims(),
                forall|index: int|
                    0 <= index < cells_before.len() ==> on_grid(
                        (#[trigger] cells_before[index]).coord(),
                        old(self).dims(),
                    ),
                due.no_duplicates(),
                cells@.len() == cells_before.len(),
                forall|j: int| k <= j < staged@.len() ==> staged@[j] == given[j],
                forall|index: int|
                    0 <= index < cells@.len() ==> (#[trigger] cells@[index]).coord()
                        == cells_before[index].coord(),
                changed_cells@ == changed(cells_before, due, given, k as int),
                forall|j: int|
                    #![trigger due[j]]
                    0 <= j < k && given[j] is Some && place_of(cells_before, due[j]) is Some ==> {
                        let index = place_of(cells_before, due[j])->0;
                        &&& cells@[index].spec_cur_state() == given[j]
                        &&& cells@[index].spec_prev_state() == cells_before[index].spec_cur_state()
                        &&& cells@[index].stands_as(&cells_before[index])
                    },
                forall|index: int|
                    0 <= index < cells@.len() && !(exists|j: int|
                        0 <= j < k && given[j] is Some && #[trigger] place_of(cells_before, due[j])
                            == Some(index)) ==> #[trigger] cells@[index] == cells_before[index],
            decreases due.len() - k,
        {
            let at = self.update_cells[k];
            let next = staged[k].take();
            let ghost cells_then = cells@;
            proof {
                lemma_same_places(cells_before, cells@, at);
            }
            match position_of(&cells, &at) {
                Some(index) => match next {
                    Some(next) => {
                        assert(cells@[index as int] == cells_before[index as int]) by {
                            if exists|j: int|
                                0 <= j < k && given[j] is Some && #[trigger] place_of(
                                    cells_before,
                                    due[j],
                                ) == Some(index as int) {
                                let j = choose|j: int|
                                    0 <= j < k && given[j] is Some && #[trigger] place_of(
                                        cells_before,
                                        due[j],
                                    ) == Some(index as int);
                                crate::grid::grid_2d::lemma_place_of(cells_before, due[j]);
                                crate::grid::grid_2d::lemma_place_of(cells_before, at);
                                assert(due[j] == due[k as int]);
                            }
                        }
                        let differs = match cells[index].cur_state() {
                            Some(current) => !current.same_name(&next),
                            None => true,
                        };
                        if differs {
                            changed_cells.push(at);
                        }
                        cells[index].advance(next);
                        proof {
                            assert forall|j: int|
                                #![trigger due[j]]
                                0 <= j < k && given[j] is Some && place_of(cells_before, due[j])
                                    is Some implies {
                                let other = place_of(cells_before, due[j])->0;
                                &&& cells@[other].spec_cur_state() == given[j]
                                &&& cells@[other].spec_prev_state()
                                    == cells_before[other].spec_cur_state()
                                &&& cells@[other].stands_as(&cells_before[other])
                            } by {
                                let other = place_of(cells_before, due[j])->0;
                                crate::grid::grid_2d::lemma_place_of(cells_before, due[j]);
                                crate::grid::grid_2d::lemma_place_of(cells_before, at);
                                assert(due[j] != due[k as int]);
                                assert(other != index);
                                assert(cells@[other] == cells_then[other]);
                            }
                        }
                    },
                    None => {},
                },
                None => {},
            }
            k += 1;
        }
        let stored = self.grid.set_points(cells);
        assert(stored);
        self.update_cells = changed_cells;
        proof {
            lemma_changed_once(cells_before, due, given, due.len() as int);
        }
        true
    }

    /// Advances the automaton by one generation. Every cell that is due and
    /// has a current state gets its next state from the rule for that state,
    /// applied to it and to the current states of the cell's neighbours; only
    /// when each has got one are they installed, all at once. Where a
    /// neighbour has no current state, or a state has no rule, nothing
    /// changes.
    pub fn step(&mut self) -> (stepped: Result<(), StepError>)
        requires
            old(self).wf(),
        ensures
            final(self).wf(),
            match stepped {
                Ok(_) => old(self).fails_nowhere() && exists|staged: Seq<Option<State<T>>>|
                    old(self).stages(staged) && #[trigger] final(self).committed_from(
                        old(self),
                        staged,
                    ),
                Err(error) => old(self).fails_with(error) && *final(self) == *old(self),
            },
    {
        let staged = self.stage()?;
        let ghost installed = staged@;
        let committed = self.commit(staged);
        assert(committed);
        assert(self.committed_from(old(self), installed));
        Ok(())
    }

    /// Whether the step fails with `error`: whether that is why the first
    /// cell among the due ones that cannot be given its next state cannot.
    pub open spec fn fails_with(&self, error: StepError) -> bool {
        exists|k: int|
            0 <= k < self.due().len() && #[trigger] failure_at(
                self.cells(),
                self.rules(),
                self.due()[k],
            ) == Some(error) && forall|j: int|
                0 <= j < k ==> #[trigger] failure_at(self.cells(), self.rules(), self.due()[j])
                    is None
    }

    /// Whether every cell that is due can be given its next state.
    pub open spec fn fails_nowhere(&self) -> bool {
        forall|k: int|
            0 <= k < self.due().len() ==> #[trigger] failure_at(
                self.cells(),
                self.rules(),
                self.due()[k],
            ) is None
    }

    /// Whether `staged` holds a next state for each cell that is due, in
    /// the order in which they are due.
    pub open spec fn stages(&self, staged: Seq<Option<State<T>>>) -> bool {
        &&& staged.len() == self.due().len()
        &&& forall|k: int|
            0 <= k < self.due().len() ==> staged_for(
                self.cells(),
                self.rules(),
                self.due()[k],
                #[trigger] staged[k],
            )
    }

    /// Whether `self` is `before` with `staged` installed: each cell that
    /// was due and has something staged has that as its current state and
    /// its state of before as its previous state; every other cell is as it
    /// was; and due are now the cells that changed their state.
    pub open spec fn committed_from(&self, before: &Self, staged: Seq<Option<State<T>>>) -> bool {
        &&& self.dims() == before.dims()
        &&& self.topology() == before.topology()
        &&& self.rules() == before.rules()
        &&& self.cells().len() == before.cells().len()
        &&& self.due() == changed(before.cells(), before.due(), staged, before.due().len() as int)
        &&& forall|k: int|
            #![trigger before.due()[k]]
            0 <= k < before.due().len() && staged[k] is Some && place_of(
                before.cells(),
                before.due()[k],
            ) is Some ==> {
                let index = place_of(before.cells(), before.due()[k])->0;
                &&& self.cells()[index].spec_cur_state() == staged[k]
                &&& self.cells()[index].spec_prev_state() == before.cells()[index].spec_cur_state()
                &&& self.cells()[index].stands_as(&before.cells()[index])
            }
        &&& forall|index: int|
            0 <= index < before.cells().len() && !(exists|k: int|
                0 <= k < before.due().len() && staged[k] is Some && #[trigger] place_of(
                    before.cells(),
                    before.due()[k],
                ) == Some(index)) ==> #[trigger] self.cells()[index] == before.cells()[index]
    }
}

/// The current states of the cells at `around`, in the order of `around`,
/// if each of them has one.
pub fn neighbour_states<'a, T>(cells: &'a Vec<APoint<T>>, around: &Neighbours) -> (found: Option<
    Vec<&'a State<T>>,
>)
    ensures
        found is Some == all_known(cells@, around@),
        found is Some ==> states_of(found->0@) == states_around(cells@, around@),
{
    let mut states: Vec<&'a State<T>> = Vec::new();
    let mut k: usize = 0;
    while k < around.len()
        invariant
            k <= around@.len(),
            states@.len() == k,
            forall|j: int| 0 <= j < k ==> state_at(cells@, #[trigger] around@[j]) == Some(
                *states@[j],
            ),
        decreases around.len() - k,
    {
        match position_of(cells, &around[k]) {
            Some(index) => match cells[index].cur_state() {
                Some(state) => states.push(state),
                None => {
                    assert(state_at(cells@, around@[k as int]) is None);
                    return None;
                },
            },
            None => {
                assert(state_at(cells@, around@[k as int]) is None);
                return None;
            },
        }
        k += 1;
    }
    assert(states_of(states@) =~= states_around(cells@, around@));
    Some(states)
}

/// Cells that stand where they stood are found where they were found.
proof fn lemma_same_places<T>(before: Seq<APoint<T>>, after: Seq<APoint<T>>, at: Point)
    requires
        before.len() == after.len(),
        forall|index: int|
            0 <= index < after.len() ==> (#[trigger] after[index]).coord() == before[index].coord(),
    ensures
        place_of(after, at) == place_of(before, at),
{
    crate::grid::grid_2d::lemma_place_of(before, at);
    crate::grid::grid_2d::lemma_place_of(after, at);
    if place_of(before, at) is Some {
        let index = place_of(before, at)->0;
        assert(after[index].coord() == at);
        assert forall|j: int| 0 <= j < index implies after[j].coord() != at by {
            assert(before[j].coord() != at);
        }
        assert(crate::grid::grid_2d::first_at(after, at, index));
    } else if place_of(after, at) is Some {
        let index = place_of(after, at)->0;
        assert(before[index].coord() == at);
        assert forall|j: int| 0 <= j < index implies before[j].coord() != at by {
            assert(after[j].coord() != at);
        }
        assert(crate::grid::grid_2d::first_at(before, at, index));
    }
}

/// The cells that changed are among those that were due, each once.
proof fn lemma_changed_once<T>(
    cells: Seq<APoint<T>>,
    due: Seq<Point>,
    staged: Seq<Option<State<T>>>,
    upto: int,
)
    requires
        due.no_duplicates(),
        0 <= upto <= due.len(),
    ensures
        changed(cells, due, staged, upto).no_duplicates(),
        forall|at: Point|
            changed(cells, due, staged, upto).contains(at) ==> exists|k: int|
                0 <= k < upto && due[k] == at,
    decreases upto,
{
    if upto > 0 {
        lemma_changed_once(cells, due, staged, upto - 1);
        let before = changed(cells, due, staged, upto - 1);
        let after = changed(cells, due, staged, upto);
        assert forall|at: Point| after.contains(at) implies exists|k: int|
            0 <= k < upto && due[k] == at by {
            let i = choose|i: int| 0 <= i < after.len() && after[i] == at;
            if i < before.len() {
                assert(before.contains(at));
                let k = choose|k: int| 0 <= k < upto - 1 && due[k] == at;
                assert(due[k] == at);
            } else {
                assert(due[upto - 1] == at);
            }
        }
        if changes(cells, due[upto - 1], staged[upto - 1]) {
            if before.contains(due[upto - 1]) {
                let at = due[upto - 1];
                let k = choose|k: int| 0 <= k < upto - 1 && due[k] == at;
                assert(due[k] == due[upto - 1]);
            }
        }
    }
}

/// Cells that are wired to the offsets of a topology are wired to their
/// neighbours under it, and stand where they stood.
proof fn lemma_wired<T>(
    before: Seq<APoint<T>>,
    after: Seq<APoint<T>>,
    shape: Seq<Point>,
    n_type: NType,
    radius: int,
    max_dims: Point,
)
    requires
        is_neighbourhood(shape, n_type, radius),
        after.len() == before.len(),
        forall|index: int|
            0 <= index < before.len() ==> (#[trigger] after[index]).coord() == before[index].coord()
                && wired_to(after[index].spec_neighbours(), shape, before[index].coord(), max_dims),
    ensures
        forall|index: int|
            0 <= index < before.len() ==> is_neighbourhood_of(
                (#[trigger] after[index]).spec_neighbours(),
                n_type,
                radius,
                before[index].coord(),
                max_dims,
            ),
        forall|index: int|
            0 <= index < before.len() && on_grid(before[index].coord(), max_dims) ==> on_grid(
                (#[trigger] after[index]).coord(),
                max_dims,
            ),
{
    assert forall|index: int| 0 <= index < before.len() implies is_neighbourhood_of(
        (#[trigger] after[index]).spec_neighbours(),
        n_type,
        radius,
        before[index].coord(),
        max_dims,
    ) by {
        let around = after[index].spec_neighbours();
        let at = before[index].coord();
        assert(wired_to(around, shape, at, max_dims));
        assert forall|p: Point|
            around.contains(p) <==> p != at && on_grid(p, max_dims) && n_type.reaches(
                radius,
                p.minus(at),
            ) by {
            assert(shape.contains(p.minus(at)) <==> n_type.reaches(radius, p.minus(at)));
        }
    }
}

/// Gives every cell its neighbours on a grid of extent `max_dims`, where
/// `shape` holds the offsets of neighbours.
fn wire_cells<T>(cells: &mut Vec<APoint<T>>, shape: &Neighbours, max_dims: &Point)
    ensures
        final(cells)@.len() == old(cells)@.len(),
        forall|index: int|
            0 <= index < old(cells)@.len() ==> {
                &&& (#[trigger] final(cells)@[index]).coord() == old(cells)@[index].coord()
                &&& final(cells)@[index].spec_cur_state() == old(cells)@[index].spec_cur_state()
                &&& final(cells)@[index].spec_prev_state() == old(cells)@[index].spec_prev_state()
                &&& wired_to(
                    final(cells)@[index].spec_neighbours(),
                    shape@,
                    old(cells)@[index].coord(),
                    *max_dims,
                )
            },
{
    let mut index: usize = 0;
    while index < cells.len()
        invariant
            index <= cells@.len() == old(cells)@.len(),
            forall|i: int|
                0 <= i < cells@.len() ==> {
                    &&& (#[trigger] cells@[i]).coord() == old(cells)@[i].coord()
                    &&& cells@[i].spec_cur_state() == old(cells)@[i].spec_cur_state()
                    &&& cells@[i].spec_prev_state() == old(cells)@[i].spec_prev_state()
                },
            forall|i: int|
                0 <= i < index ==> wired_to(
                    (#[trigger] cells@[i]).spec_neighbours(),
                    shape@,
                    old(cells)@[i].coord(),
                    *max_dims,
                ),
        decreases cells@.len() - index,
    {
        let at = Point::new(cells[index].x(), cells[index].y());
        let mut around = copy_of(shape);
        place_neighbourhood(&mut around, &at, max_dims);
        let ghost placed = around@;
        let ghost cells_then = cells@;
        cells[index].set_neighbours(around);
        proof {
            let wired = cells@[index as int].spec_neighbours();
            assert forall|p: Point| #[trigger]
                wired.contains(p) <==> p != at && on_grid(p, *max_dims) && shape@.contains(
                    p.minus(at),
                ) by {
                assert(wired.contains(p) <==> placed.contains(p) && p != at);
            }
            assert forall|i: int| 0 <= i < index implies wired_to(
                (#[trigger] cells@[i]).spec_neighbours(),
                shape@,
                old(cells)@[i].coord(),
                *max_dims,
            ) by {
                assert(cells@[i] == cells_then[i]);
            }
        }
        index += 1;
    }
}

/// A copy of `points`.
fn copy_of(points: &Neighbours) -> (copy: Neighbours)
    ensures
        copy@ == points@,
{
    let mut copy: Neighbours = Vec::new();
    let mut index: usize = 0;
    while index < points.len()
        invariant
            index <= points@.len(),
            copy@ == points@.take(index as int),
        decreases points.len() - index,
    {
        copy.push(points[index]);
        index += 1;
    }
    assert(points@.take(points@.len() as int) == points@);
    copy
}

} // verus!
