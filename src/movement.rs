use crate::interner::{interned_as, Interner, SYMBOL_LIMIT};
use crate::sparse::get_mut_at_with_extend;
use vstd::prelude::*;

verus! {

/// Why the agent moved.
#[derive(Clone, Copy, Debug, PartialEq, Eq, Structural)]
pub enum MoveReason {
    GameNotStarted,
    NowhereUsefulToMove,
    ClosestReachableUnchecked,
    Priority,
    PriorityPriority,
    GoMode,
    Startled,
}

/// One logged move of a simulation run.
#[derive(Debug)]
pub struct Movement {
    pub seed_number: u16,
    pub iteration_number: u16,
    pub slot_number: u16,
    pub step_number: u16,
    pub region: String,
    pub n: u8,
    pub reason: MoveReason,
}

/// A location: a region symbol and an index within the region.
#[derive(Clone, Copy, Debug, PartialEq, Eq, Structural)]
pub struct Location {
    pub region: u16,
    pub n: u8,
}

/// A move as kept in a run's log: where to, and why.
#[derive(Clone, Copy, Debug, PartialEq, Eq, Structural)]
pub struct MoveEntry {
    pub to: Location,
    pub reason: MoveReason,
}

/// The moves of one run, indexed by step, in the order they were logged.
pub struct RunLog {
    pub seed_number: u16,
    pub iteration_number: u16,
    pub slot_number: u16,
    pub steps: Vec<Vec<MoveEntry>>,
}

/// Count kept for `loc` by a histogram indexed by region symbol, then by
/// location index; locations past its ends count 0.
pub open spec fn count_of(h: Seq<Vec<u128>>, loc: Location) -> int {
    if (loc.region as int) < h.len() && (loc.n as int) < h[loc.region as int]@.len() {
        h[loc.region as int]@[loc.n as int] as int
    } else {
        0
    }
}

/// Adds one to the count of `loc`.
pub fn bump(h: &mut Vec<Vec<u128>>, loc: Location)
    requires
        count_of(old(h)@, loc) < u128::MAX,
    ensures
        forall|l: Location|
            #[trigger] count_of(final(h)@, l) == count_of(old(h)@, l) + if l == loc {
                1int
            } else {
                0int
            },
{
    let ghost before = h@;
    let row = get_mut_at_with_extend(h, loc.region as usize);
    let ghost row_before = *row;
    let cell = get_mut_at_with_extend(row, loc.n as usize);
    *cell = *cell + 1;
    assert forall|l: Location|
        #[trigger] count_of(h@, l) == count_of(before, l) + if l == loc {
            1int
        } else {
            0int
        } by {
        if l.region == loc.region && l.n != loc.n {
            if (l.n as int) < row_before@.len() {
                assert(h@[l.region as int]@[l.n as int] == row_before@[l.n as int]);
            }
        }
    }
}

/// Where a run stands at the end of step `i`: the destination of the last
/// move of the latest step up to `i` that has moves, or `start` if none has.
pub open spec fn location_after(steps: Seq<Vec<MoveEntry>>, start: Location, i: int) -> Location
    decreases i + 1,
{
    if i < 0 || i >= steps.len() {
        start
    } else if steps[i]@.len() > 0 {
        steps[i]@.last().to
    } else {
        location_after(steps, start, i - 1)
    }
}

/// Whether the run was startled in step `i`: the step's last move was.
pub open spec fn startled_in(steps: Seq<Vec<MoveEntry>>, i: int) -> bool {
    0 <= i < steps.len() && steps[i]@.len() > 0 && steps[i]@.last().reason == MoveReason::Startled
}

/// Number of steps before `k` in which the run was startled.
pub open spec fn startled_steps(steps: Seq<Vec<MoveEntry>>, k: int) -> int
    decreases k,
{
    if k <= 0 {
        0
    } else {
        startled_steps(steps, k - 1) + if startled_in(steps, k - 1) {
            1int
        } else {
            0int
        }
    }
}

/// Number of steps before `k` that the run ended at `loc`.
pub open spec fn steps_ended_at(steps: Seq<Vec<MoveEntry>>, start: Location, loc: Location, k: int) -> int
    decreases k,
{
    if k <= 0 {
        0
    } else {
        steps_ended_at(steps, start, loc, k - 1) + if location_after(steps, start, k - 1) == loc {
            1int
        } else {
            0int
        }
    }
}

/// A run ends each step at one location only, however many moves the step
/// holds: of the steps before `k`, at most `k` ended at `loc`, and at most
/// `k` ended at `loc` or at another location `other`, taken together.
pub proof fn lemma_one_end_per_step(
    steps: Seq<Vec<MoveEntry>>,
    start: Location,
    loc: Location,
    other: Location,
    k: int,
)
    requires
        0 <= k,
        loc != other,
    ensures
        0 <= steps_ended_at(steps, start, loc, k) <= k,
        steps_ended_at(steps, start, loc, k) + steps_ended_at(steps, start, other, k) <= k,
    decreases k,
{
    if k > 0 {
        lemma_one_end_per_step(steps, start, loc, other, k - 1);
    }
}

/// Steps of the first `r` runs.
pub open spec fn total_steps_of(runs: Seq<RunLog>, r: int) -> int
    decreases r,
{
    if r <= 0 {
        0
    } else {
        total_steps_of(runs, r - 1) + runs[r - 1].steps@.len()
    }
}

/// Startled steps of the first `r` runs.
pub open spec fn startled_of(runs: Seq<RunLog>, r: int) -> int
    decreases r,
{
    if r <= 0 {
        0
    } else {
        startled_of(runs, r - 1) + startled_steps(runs[r - 1].steps@, runs[r - 1].steps@.len() as int)
    }
}

/// Steps of the first `r` runs that ended at `loc`.
pub open spec fn ended_of(runs: Seq<RunLog>, start: Location, loc: Location, r: int) -> int
    decreases r,
{
    if r <= 0 {
        0
    } else {
        ended_of(runs, start, loc, r - 1) + steps_ended_at(
            runs[r - 1].steps@,
            start,
            loc,
            runs[r - 1].steps@.len() as int,
        )
    }
}

/// What the replay of all runs yields: the number of steps, the number of
/// startled steps, and for each location the number of steps that ended
/// there.
pub struct Occupancy {
    pub total_steps: u128,
    pub steps_spent_startled: u128,
    pub ended_at: Vec<Vec<u128>>,
}

/// Steps in a run log: step numbers are 16-bit.
pub const STEP_LIMIT: usize = 65536;

/// Replays every run step by step from `start`: in a step with moves the
/// run ends at the last move's destination, startled if that move was; in
/// a step without moves it stays where it was, not startled.
pub fn replay(runs: &Vec<RunLog>, start: Location) -> (r: Occupancy)
    requires
        forall|j: int| 0 <= j < runs@.len() ==> (#[trigger] runs@[j]).steps@.len() <= STEP_LIMIT,
    ensures
        r.total_steps == total_steps_of(runs@, runs@.len() as int),
        r.steps_spent_startled == startled_of(runs@, runs@.len() as int),
        forall|loc: Location|
            #[trigger] count_of(r.ended_at@, loc) == ended_of(runs@, start, loc, runs@.len() as int),
{
    let mut total_steps: u128 = 0;
    let mut steps_spent_startled: u128 = 0;
    let mut ended_at: Vec<Vec<u128>> = Vec::new();
    let mut j: usize = 0;
    while j < runs.len()
        invariant
            j <= runs@.len(),
            forall|k: int| 0 <= k < runs@.len() ==> (#[trigger] runs@[k]).steps@.len() <= STEP_LIMIT,
            total_steps == total_steps_of(runs@, j as int),
            total_steps <= j * STEP_LIMIT,
            steps_spent_startled == startled_of(runs@, j as int),
            steps_spent_startled <= total_steps,
            forall|loc: Location|
                #[trigger] count_of(ended_at@, loc) == ended_of(runs@, start, loc, j as int),
            forall|loc: Location| #[trigger] count_of(ended_at@, loc) <= total_steps,
        decreases runs@.len() - j,
    {
        let steps = &runs[j].steps;
        let ghost base = ended_at@;
        let ghost base_total = total_steps as int;
        let ghost base_startled = steps_spent_startled as int;
        let mut current = start;
        let mut i: usize = 0;
        while i < steps.len()
            invariant
                j < runs@.len(),
                steps@ == runs@[j as int].steps@,
                steps@.len() <= STEP_LIMIT,
                base_total <= j * STEP_LIMIT,
                i <= steps@.len(),
                i > 0 ==> current == location_after(steps@, start, i - 1),
                i == 0 ==> current == start,
                total_steps == base_total + i,
                steps_spent_startled == base_startled + startled_steps(steps@, i as int),
                steps_spent_startled <= total_steps,
                forall|loc: Location|
                    #[trigger] count_of(ended_at@, loc) == count_of(base, loc) + steps_ended_at(
                        steps@,
                        start,
                        loc,
                        i as int,
                    ),
                forall|loc: Location| #[trigger] count_of(ended_at@, loc) <= total_steps,
            decreases steps@.len() - i,
        {
            let moves = &steps[i];
            let mut startled = false;
            if moves.len() > 0 {
                let last = moves[moves.len() - 1];
                current = last.to;
                startled = last.reason == MoveReason::Startled;
            }
            proof {
                assert(moves@ == steps@[i as int]@);
                if moves@.len() == 0 {
                    assert(location_after(steps@, start, i as int) == location_after(steps@, start, i - 1));
                    if i == 0 {
                        assert(location_after(steps@, start, -1) == start);
                    }
                }
                assert(current == location_after(steps@, start, i as int));
                assert(startled == startled_in(steps@, i as int));
                assert(total_steps < u128::MAX) by (nonlinear_arith)
                    requires
                        total_steps == base_total + i,
                        base_total <= j * STEP_LIMIT,
                        i <= STEP_LIMIT,
                        j <= usize::MAX,
                        STEP_LIMIT == 65536,
                ;
            }
            bump(&mut ended_at, current);
            total_steps = total_steps + 1;
            if startled {
                steps_spent_startled = steps_spent_startled + 1;
            }
            i = i + 1;
        }
        proof {
            assert(total_steps <= (j + 1) * STEP_LIMIT) by (nonlinear_arith)
                requires
                    total_steps == base_total + i,
                    base_total <= j * STEP_LIMIT,
                    i <= STEP_LIMIT,
            ;
        }
        j = j + 1;
    }
    Occupancy { total_steps, steps_spent_startled, ended_at }
}

/// Why a movement could not be taken in.
#[derive(Clone, Copy, Debug, PartialEq, Eq)]
pub enum MovementError {
    /// The movement counter is at its largest value.
    TooManyMovements,
    /// A new region name would not get a symbol.
    TooManyRegions,
}

/// Whether `run` is the log of the run that movement `m` belongs to.
pub open spec fn same_run(run: RunLog, m: Movement) -> bool {
    run.seed_number == m.seed_number && run.iteration_number == m.iteration_number
        && run.slot_number == m.slot_number
}

/// `after` is the per-step log `before` with `e` appended to step `step`,
/// grown with empty steps to cover it.
pub open spec fn steps_added(
    before: Seq<Vec<MoveEntry>>,
    after: Seq<Vec<MoveEntry>>,
    step: int,
    e: MoveEntry,
) -> bool {
    &&& after.len() == if step < before.len() {
        before.len()
    } else {
        (step + 1) as nat
    }
    &&& after[step]@ == if step < before.len() {
        before[step]@
    } else {
        Seq::empty()
    }.push(e)
    &&& forall|k: int|
        0 <= k < after.len() && k != step ==> if k < before.len() {
            #[trigger] after[k] == before[k]
        } else {
            after[k]@.len() == 0
        }
}

/// `after` is the run logs `before` with `e` logged for movement `m`: in
/// the log of its run, or in a new log appended for it.
pub open spec fn run_added(before: Seq<RunLog>, after: Seq<RunLog>, m: Movement, e: MoveEntry) -> bool {
    exists|j: int|
        {
            &&& 0 <= j < after.len()
            &&& same_run(after[j], m)
            &&& if j < before.len() {
                &&& after.len() == before.len()
                &&& same_run(before[j], m)
                &&& steps_added(before[j].steps@, after[j].steps@, m.step_number as int, e)
            } else {
                &&& j == before.len()
                &&& after.len() == before.len() + 1
                &&& forall|k: int| 0 <= k < before.len() ==> !same_run(#[trigger] before[k], m)
                &&& steps_added(Seq::empty(), after[j].steps@, m.step_number as int, e)
            }
            &&& forall|k: int| 0 <= k < before.len() && k != j ==> #[trigger] after[k] == before[k]
        }
}

/// The index of the log of the run that `m` belongs to, if there is one.
fn find_run(runs: &Vec<RunLog>, m: &Movement) -> (r: Option<usize>)
    ensures
        r matches Some(j) ==> j < runs@.len() && same_run(runs@[j as int], *m),
        r is None ==> forall|k: int| 0 <= k < runs@.len() ==> !same_run(#[trigger] runs@[k], *m),
{
    let mut k: usize = runs.len();
    while k > 0
        invariant
            k <= runs@.len(),
            forall|i: int| k <= i < runs@.len() ==> !same_run(#[trigger] runs@[i], *m),
        decreases k,
    {
        k = k - 1;
        let run = &runs[k];
        if run.seed_number == m.seed_number && run.iteration_number == m.iteration_number
            && run.slot_number == m.slot_number {
            return Some(k);
        }
    }
    None
}

/// Builds per-run, per-step logs from a stream of movements, counting the
/// moves into each location as they come; `finish` then replays the logs.
/// Every run starts in the menu: region "Menu", index 0.
pub struct MovementReplayer {
    pub interner: Interner,
    pub menu: Location,
    pub runs: Vec<RunLog>,
    pub moved_to: Vec<Vec<u128>>,
    pub total_movements: usize,
    pub movements_while_startled: usize,
}

/// Results of a whole stream of movements. Histograms are indexed by
/// region symbol, then by location index; `regions` names the symbols.
pub struct ProcessedMovements {
    pub regions: Vec<String>,
    pub total_movements: usize,
    pub movements_while_startled: usize,
    pub total_steps: u128,
    pub steps_spent_startled: u128,
    pub moved_to: Vec<Vec<u128>>,
    pub ended_at: Vec<Vec<u128>>,
}

impl MovementReplayer {
    pub open spec fn wf(&self) -> bool {
        &&& self.interner.wf()
        &&& forall|j: int|
            0 <= j < self.runs@.len() ==> (#[trigger] self.runs@[j]).steps@.len() <= STEP_LIMIT
        &&& forall|loc: Location| #[trigger] count_of(self.moved_to@, loc) <= self.total_movements
        &&& self.movements_while_startled <= self.total_movements
    }

    pub fn new() -> (r: Self)
        ensures
            r.wf(),
            r.interner@ == seq![seq!['M', 'e', 'n', 'u']],
            r.menu == (Location { region: 0, n: 0 }),
            r.runs@.len() == 0,
            forall|loc: Location| #[trigger] count_of(r.moved_to@, loc) == 0,
            r.total_movements == 0,
            r.movements_while_startled == 0,
    {
        let mut interner = Interner::new();
        let menu_name: &str = "Menu";
        proof {
            reveal_strlit("Menu");
            assert(menu_name@ =~= seq!['M', 'e', 'n', 'u']);
        }
        let menu_region = interner.intern(menu_name);
        proof {
            assert(!Seq::<Seq<char>>::empty().contains(menu_name@));
            assert(interner@ =~= seq![seq!['M', 'e', 'n', 'u']]);
        }
        MovementReplayer {
            interner,
            menu: Location { region: menu_region.unwrap(), n: 0 },
            runs: Vec::new(),
            moved_to: Vec::new(),
            total_movements: 0,
            movements_while_startled: 0,
        }
    }

    /// Takes in one movement: logs it at its step in its run's log, and
    /// counts one move into its destination.
    pub fn record(&mut self, m: &Movement) -> (r: Result<(), MovementError>)
        requires
            old(self).wf(),
        ensures
            final(self).wf(),
            final(self).menu == old(self).menu,
            r == Err::<(), MovementError>(MovementError::TooManyMovements) <==> old(
                self,
            ).total_movements == usize::MAX,
            r == Err::<(), MovementError>(MovementError::TooManyRegions) <==> (old(self).total_movements
                < usize::MAX && !old(self).interner@.contains(m.region@) && old(self).interner@.len()
                == SYMBOL_LIMIT),
            r is Err ==> final(self).interner@ == old(self).interner@ && final(self).runs == old(
                self,
            ).runs && final(self).moved_to == old(self).moved_to && final(self).total_movements
                == old(self).total_movements && final(self).movements_while_startled == old(
                self,
            ).movements_while_startled,
            r is Ok ==> final(self).total_movements == old(self).total_movements + 1,
            r is Ok ==> final(self).movements_while_startled == old(self).movements_while_startled
                + if m.reason == MoveReason::Startled {
                1int
            } else {
                0int
            },
            r is Ok ==> exists|sym: u16|
                {
                    &&& interned_as(old(self).interner@, final(self).interner@, m.region@, sym as int)
                    &&& run_added(
                        old(self).runs@,
                        final(self).runs@,
                        *m,
                        MoveEntry { to: Location { region: sym, n: m.n }, reason: m.reason },
                    )
                    &&& forall|loc: Location|
                        #[trigger] count_of(final(self).moved_to@, loc) == count_of(
                            old(self).moved_to@,
                            loc,
                        ) + if loc == (Location { region: sym, n: m.n }) {
                            1int
                        } else {
                            0int
                        }
                },
    {
        if self.total_movements == usize::MAX {
            return Err(MovementError::TooManyMovements);
        }
        let ghost names_before = self.interner@;
        let sym = match self.interner.intern(m.region.as_str()) {
            Some(k) => k,
            None => {
                return Err(MovementError::TooManyRegions);
            },
        };
        let entry = MoveEntry { to: Location { region: sym, n: m.n }, reason: m.reason };
        let ghost runs_before = self.runs@;
        let j = match find_run(&self.runs, m) {
            Some(j) => j,
            None => {
                self.runs.push(
                    RunLog {
                        seed_number: m.seed_number,
                        iteration_number: m.iteration_number,
                        slot_number: m.slot_number,
                        steps: Vec::new(),
                    },
                );
                self.runs.len() - 1
            },
        };
        let ghost runs_mid = self.runs@;
        let run = &mut self.runs[j];
        let moves = get_mut_at_with_extend(&mut run.steps, m.step_number as usize);
        moves.push(entry);
        proof {
            assert(steps_added(runs_mid[j as int].steps@, self.runs@[j as int].steps@, m.step_number as int, entry));
            if j as int == runs_before.len() {
                assert(runs_mid[j as int].steps@ =~= Seq::<Vec<MoveEntry>>::empty());
            }
            assert(run_added(runs_before, self.runs@, *m, entry));
        }
        bump(&mut self.moved_to, entry.to);
        self.total_movements = self.total_movements + 1;
        if m.reason == MoveReason::Startled {
            self.movements_while_startled = self.movements_while_startled + 1;
        }
        assert(interned_as(names_before, self.interner@, m.region@, sym as int));
        Ok(())
    }

    /// Replays every run and gathers the results.
    pub fn finish(self) -> (r: ProcessedMovements)
        requires
            self.wf(),
        ensures
            r.regions@.len() == self.interner@.len(),
            forall|k: int| 0 <= k < r.regions@.len() ==> (#[trigger] r.regions@[k])@ == self.interner@[k],
            r.total_movements == self.total_movements,
            r.movements_while_startled == self.movements_while_startled,
            r.total_steps == total_steps_of(self.runs@, self.runs@.len() as int),
            r.steps_spent_startled == startled_of(self.runs@, self.runs@.len() as int),
            r.moved_to == self.moved_to,
            forall|loc: Location|
                #[trigger] count_of(r.ended_at@, loc) == ended_of(
                    self.runs@,
                    self.menu,
                    loc,
                    self.runs@.len() as int,
                ),
    {
        let regions = self.interner.strings();
        let occupancy = replay(&self.runs, self.menu);
        ProcessedMovements {
            regions,
            total_movements: self.total_movements,
            movements_while_startled: self.movements_while_startled,
            total_steps: occupancy.total_steps,
            steps_spent_startled: occupancy.steps_spent_startled,
            moved_to: self.moved_to,
            ended_at: occupancy.ended_at,
        }
    }
}

} // verus!
