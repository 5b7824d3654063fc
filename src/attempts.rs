use crate::interner::{interned_as, Interner, SYMBOL_LIMIT};
use crate::sparse::{
    bits_of, get_mut_at_with_extend, count_ones, new_bits, ones, set_at_with_extend, with_bit_set, Bits, BIT_LEN_LIMIT,
};
use crate::stats::{ascending, lemma_of_deterministic, statistics_of, Statistics};
use vstd::prelude::*;

verus! {

/// One skill-check attempt at a location, as logged by a simulation run.
/// The four flags count as set when they are not 0.
#[derive(Debug)]
pub struct LocationAttempt {
    pub seed_number: u16,
    pub iteration_number: u16,
    pub slot_number: u16,
    pub step_number: u16,
    pub region: String,
    pub n: u8,
    pub rat_count: u8,
    pub mercy_modifier: u8,
    pub has_lucky: u8,
    pub has_unlucky: u8,
    pub has_stylish: u8,
    pub success: u8,
}

/// 1 for a set flag, 0 for a clear one.
pub open spec fn flag(x: u8) -> nat {
    if x != 0 {
        1
    } else {
        0
    }
}

/// Running collection of the attempts of one group: three samples, the
/// runs that attempted, and four event counters.
pub struct LocationAttemptAccumulator {
    pub step_number: Vec<u16>,
    pub rat_count: Vec<u16>,
    pub mercy_modifier: Vec<u16>,
    pub attempted_during: Bits,
    pub lucky: usize,
    pub unlucky: usize,
    pub stylish: usize,
    pub success: usize,
}

/// The samples, runs and counters of an accumulator; `None` stands for an
/// accumulator that holds nothing.
pub open spec fn steps_in(a: Option<LocationAttemptAccumulator>) -> Seq<u16> {
    match a {
        Some(x) => x.step_number@,
        None => Seq::empty(),
    }
}

pub open spec fn rats_in(a: Option<LocationAttemptAccumulator>) -> Seq<u16> {
    match a {
        Some(x) => x.rat_count@,
        None => Seq::empty(),
    }
}

pub open spec fn mercy_in(a: Option<LocationAttemptAccumulator>) -> Seq<u16> {
    match a {
        Some(x) => x.mercy_modifier@,
        None => Seq::empty(),
    }
}

pub open spec fn runs_in(a: Option<LocationAttemptAccumulator>) -> Seq<bool> {
    match a {
        Some(x) => bits_of(&x.attempted_during),
        None => Seq::empty(),
    }
}

/// Counters of an accumulator: lucky, unlucky, stylish, success.
pub open spec fn counters_in(a: Option<LocationAttemptAccumulator>) -> (int, int, int, int) {
    match a {
        Some(x) => (x.lucky as int, x.unlucky as int, x.stylish as int, x.success as int),
        None => (0, 0, 0, 0),
    }
}

/// `after` is `before` with one more attempt `rec`, made during run `run`.
pub open spec fn record_added(
    before: Option<LocationAttemptAccumulator>,
    after: LocationAttemptAccumulator,
    rec: LocationAttempt,
    run: int,
) -> bool {
    &&& after.step_number@ == steps_in(before).push(rec.step_number)
    &&& after.rat_count@ == rats_in(before).push(rec.rat_count as u16)
    &&& after.mercy_modifier@ == mercy_in(before).push(rec.mercy_modifier as u16)
    &&& bits_of(&after.attempted_during) == with_bit_set(runs_in(before), run)
    &&& after.lucky == counters_in(before).0 + flag(rec.has_lucky)
    &&& after.unlucky == counters_in(before).1 + flag(rec.has_unlucky)
    &&& after.stylish == counters_in(before).2 + flag(rec.has_stylish)
    &&& after.success == counters_in(before).3 + flag(rec.success)
}

impl LocationAttemptAccumulator {
    pub open spec fn wf(&self) -> bool {
        &&& self.rat_count@.len() == self.step_number@.len()
        &&& self.mercy_modifier@.len() == self.step_number@.len()
        &&& self.lucky <= self.step_number@.len()
        &&& self.unlucky <= self.step_number@.len()
        &&& self.stylish <= self.step_number@.len()
        &&& self.success <= self.step_number@.len()
    }

    /// Holds no attempt and no run.
    pub open spec fn is_empty(&self) -> bool {
        &&& self.step_number@.len() == 0
        &&& self.rat_count@.len() == 0
        &&& self.mercy_modifier@.len() == 0
        &&& bits_of(&self.attempted_during).len() == 0
        &&& self.lucky == 0
        &&& self.unlucky == 0
        &&& self.stylish == 0
        &&& self.success == 0
    }

    /// Adds one attempt made during run `run_index`.
    pub fn add(&mut self, rec: &LocationAttempt, run_index: usize)
        requires
            old(self).wf(),
            run_index < BIT_LEN_LIMIT,
        ensures
            final(self).wf(),
            record_added(Some(*old(self)), *final(self), *rec, run_index as int),
    {
        self.step_number.push(rec.step_number);
        self.rat_count.push(rec.rat_count as u16);
        self.mercy_modifier.push(rec.mercy_modifier as u16);
        set_at_with_extend(&mut self.attempted_during, run_index);
        // Each counter stays within the number of attempts, itself a `usize`.
        let attempts = self.step_number.len();
        assert(attempts == self.step_number@.len());
        if rec.has_lucky != 0 {
            self.lucky = self.lucky + 1;
        }
        if rec.has_unlucky != 0 {
            self.unlucky = self.unlucky + 1;
        }
        if rec.has_stylish != 0 {
            self.stylish = self.stylish + 1;
        }
        if rec.success != 0 {
            self.success = self.success + 1;
        }
    }
}

impl Default for LocationAttemptAccumulator {
    fn default() -> (r: Self)
        ensures
            r.is_empty(),
            r.wf(),
    {
        LocationAttemptAccumulator {
            step_number: Vec::new(),
            rat_count: Vec::new(),
            mercy_modifier: Vec::new(),
            attempted_during: new_bits(),
            lucky: 0,
            unlucky: 0,
            stylish: 0,
            success: 0,
        }
    }
}

/// The ascending arrangement of the values of `s`.
pub open spec fn sorted_of(s: Seq<u16>) -> Seq<u16> {
    choose|t: Seq<u16>| ascending(t) && t.to_multiset() == s.to_multiset()
}

/// The statistics of a sample in any order.
pub open spec fn summary_stats(s: Seq<u16>) -> Statistics {
    statistics_of(sorted_of(s))
}

/// Summary of one group of attempts. The proportions of successful, lucky,
/// unlucky and stylish attempts are the counters over `attempts`.
#[derive(Clone, Copy, Debug, PartialEq, Eq)]
pub struct LocationAttemptSummary {
    pub step_number: Statistics,
    pub rat_count: Statistics,
    pub mercy_modifier: Statistics,
    pub runs_attempted: u64,
    pub attempts: u64,
    pub success: u64,
    pub lucky: u64,
    pub unlucky: u64,
    pub stylish: u64,
}

proof fn lemma_summary_stats(s: Seq<u16>, t: Seq<u16>)
    requires
        ascending(t),
        t.to_multiset() == s.to_multiset(),
    ensures
        statistics_of(t) == summary_stats(s),
{
    let u = sorted_of(s);
    assert(ascending(u) && u.to_multiset() == s.to_multiset());
    lemma_of_deterministic(s, t, u);
}

/// The summary of an accumulator.
pub open spec fn summary_of(a: LocationAttemptAccumulator) -> LocationAttemptSummary {
    LocationAttemptSummary {
        step_number: summary_stats(a.step_number@),
        rat_count: summary_stats(a.rat_count@),
        mercy_modifier: summary_stats(a.mercy_modifier@),
        runs_attempted: ones(bits_of(&a.attempted_during)) as u64,
        attempts: a.step_number@.len() as u64,
        success: a.success as u64,
        lucky: a.lucky as u64,
        unlucky: a.unlucky as u64,
        stylish: a.stylish as u64,
    }
}

impl LocationAttemptSummary {
    /// Folds an accumulator once; its samples are left sorted.
    pub fn summarize(accumulator: &mut LocationAttemptAccumulator) -> (r: Self)
        requires
            old(accumulator).wf(),
        ensures
            r == summary_of(*old(accumulator)),
    {
        let runs_attempted = count_ones(&accumulator.attempted_during) as u64;
        let attempts = accumulator.step_number.len() as u64;
        let ghost steps = accumulator.step_number@;
        let ghost rats = accumulator.rat_count@;
        let ghost mercy = accumulator.mercy_modifier@;
        let step_number = Statistics::of(&mut accumulator.step_number);
        let rat_count = Statistics::of(&mut accumulator.rat_count);
        let mercy_modifier = Statistics::of(&mut accumulator.mercy_modifier);
        proof {
            lemma_summary_stats(steps, accumulator.step_number@);
            lemma_summary_stats(rats, accumulator.rat_count@);
            lemma_summary_stats(mercy, accumulator.mercy_modifier@);
        }
        LocationAttemptSummary {
            step_number,
            rat_count,
            mercy_modifier,
            runs_attempted,
            attempts,
            success: accumulator.success as u64,
            lucky: accumulator.lucky as u64,
            unlucky: accumulator.unlucky as u64,
            stylish: accumulator.stylish as u64,
        }
    }
}

/// Why an attempt could not be taken in.
#[derive(Clone, Copy, Debug, PartialEq, Eq)]
pub enum AggregateError {
    /// The attempt counter is at its largest value.
    TooManyAttempts,
    /// A new run would not fit in the per-group run sets.
    TooManyRuns,
    /// A new region name would not get a symbol.
    TooManyRegions,
}

/// The accumulator at index `j`, if the array reaches that far.
pub open spec fn slot(v: Seq<LocationAttemptAccumulator>, j: int) -> Option<
    LocationAttemptAccumulator,
> {
    if 0 <= j < v.len() {
        Some(v[j])
    } else {
        None
    }
}

/// The row at index `j` of a two-level array, empty if there is none.
pub open spec fn row(v: Seq<Vec<LocationAttemptAccumulator>>, j: int) -> Seq<
    LocationAttemptAccumulator,
> {
    if 0 <= j < v.len() {
        v[j]@
    } else {
        Seq::empty()
    }
}

/// `after` is the sparse array `before` with attempt `rec` added at index
/// `j`, grown to cover `j` with empty accumulators.
pub open spec fn sparse_added(
    before: Seq<LocationAttemptAccumulator>,
    after: Seq<LocationAttemptAccumulator>,
    j: int,
    rec: LocationAttempt,
    run: int,
) -> bool {
    &&& after.len() == if j < before.len() {
        before.len()
    } else {
        (j + 1) as nat
    }
    &&& record_added(slot(before, j), after[j], rec, run)
    &&& forall|k: int|
        0 <= k < after.len() && k != j ==> if k < before.len() {
            #[trigger] after[k] == before[k]
        } else {
            after[k].is_empty()
        }
}

/// Two-level form of `sparse_added`, at row `j` and column `n`.
pub open spec fn sparse2_added(
    before: Seq<Vec<LocationAttemptAccumulator>>,
    after: Seq<Vec<LocationAttemptAccumulator>>,
    j: int,
    n: int,
    rec: LocationAttempt,
    run: int,
) -> bool {
    &&& after.len() == if j < before.len() {
        before.len()
    } else {
        (j + 1) as nat
    }
    &&& sparse_added(row(before, j), after[j]@, n, rec, run)
    &&& forall|k: int|
        0 <= k < after.len() && k != j ==> if k < before.len() {
            #[trigger] after[k] == before[k]
        } else {
            after[k]@.len() == 0
        }
}

/// Whether an attempt of run `(seed, iteration, slot)` starts a new run
/// after the run `last`.
pub open spec fn starts_run(last: Option<(u16, u16, u16)>, rec: LocationAttempt) -> bool {
    match last {
        Some(p) => p != (rec.seed_number, rec.iteration_number, rec.slot_number),
        None => true,
    }
}

proof fn lemma_empty_slot(a: LocationAttemptAccumulator)
    requires
        a.is_empty(),
    ensures
        steps_in(Some(a)) == steps_in(None),
        rats_in(Some(a)) == rats_in(None),
        mercy_in(Some(a)) == mercy_in(None),
        runs_in(Some(a)) == runs_in(None),
        counters_in(Some(a)) == counters_in(None),
{
    assert(steps_in(Some(a)) =~= steps_in(None));
    assert(rats_in(Some(a)) =~= rats_in(None));
    assert(mercy_in(Some(a)) =~= mercy_in(None));
    assert(runs_in(Some(a)) =~= runs_in(None));
}

/// Summaries of a whole stream of attempts: the number of attempts, and
/// for each region (by name) its summary and the summaries of its
/// locations, indexed by location.
pub struct ProcessedLocationAttempts {
    pub total_attempts: usize,
    pub summarized_location_attempts_by_region: Vec<(String, LocationAttemptSummary)>,
    pub summarized_location_attempts_by_region_location: Vec<(String, Vec<LocationAttemptSummary>)>,
}

/// Folds every accumulator of a sparse array, index for index.
pub fn summarize_all(accumulators: &mut Vec<LocationAttemptAccumulator>) -> (r: Vec<
    LocationAttemptSummary,
>)
    requires
        all_wf(old(accumulators)@),
    ensures
        r@.len() == old(accumulators)@.len(),
        forall|m: int| 0 <= m < r@.len() ==> #[trigger] r@[m] == summary_of(old(accumulators)@[m]),
{
    let ghost start = accumulators@;
    let mut out: Vec<LocationAttemptSummary> = Vec::new();
    let mut m: usize = 0;
    while m < accumulators.len()
        invariant
            accumulators@.len() == start.len(),
            all_wf(start),
            m <= start.len(),
            forall|k: int| m <= k < start.len() ==> #[trigger] accumulators@[k] == start[k],
            out@.len() == m,
            forall|k: int| 0 <= k < m ==> #[trigger] out@[k] == summary_of(start[k]),
        decreases start.len() - m,
    {
        let summary = LocationAttemptSummary::summarize(&mut accumulators[m]);
        out.push(summary);
        m = m + 1;
    }
    out
}

/// Streaming aggregation of location attempts by region and by (region,
/// location index). Attempts must come grouped by run: a run starts
/// whenever (seed, iteration, slot) differs from the previous attempt's.
pub struct LocationAttemptAggregator {
    pub total_attempts: usize,
    pub runs_seen: usize,
    pub last_run: Option<(u16, u16, u16)>,
    pub interner: Interner,
    pub by_region: Vec<LocationAttemptAccumulator>,
    pub by_region_location: Vec<Vec<LocationAttemptAccumulator>>,
}

/// Every accumulator of a sparse array is well formed.
pub open spec fn all_wf(v: Seq<LocationAttemptAccumulator>) -> bool {
    forall|k: int| 0 <= k < v.len() ==> (#[trigger] v[k]).wf()
}

impl LocationAttemptAggregator {
    pub open spec fn wf(&self) -> bool {
        &&& self.interner.wf()
        &&& self.by_region@.len() <= self.interner@.len()
        &&& self.by_region_location@.len() <= self.interner@.len()
        &&& all_wf(self.by_region@)
        &&& forall|k: int|
            0 <= k < self.by_region_location@.len() ==> all_wf(
                #[trigger] self.by_region_location@[k]@,
            )
        &&& (self.runs_seen == 0 <==> self.last_run is None)
        &&& self.runs_seen <= BIT_LEN_LIMIT
    }

    pub fn new() -> (r: Self)
        ensures
            r.wf(),
            r.total_attempts == 0,
            r.runs_seen == 0,
            r.interner@.len() == 0,
            r.by_region@.len() == 0,
            r.by_region_location@.len() == 0,
    {
        LocationAttemptAggregator {
            total_attempts: 0,
            runs_seen: 0,
            last_run: None,
            interner: Interner::new(),
            by_region: Vec::new(),
            by_region_location: Vec::new(),
        }
    }

    /// Takes in one attempt: its region is interned, and the attempt is
    /// added to the region's accumulator and to the accumulator of its
    /// location within the region, under the index of its run.
    pub fn record(&mut self, rec: &LocationAttempt) -> (r: Result<(), AggregateError>)
        requires
            old(self).wf(),
        ensures
            final(self).wf(),
            r == Err::<(), AggregateError>(AggregateError::TooManyAttempts) <==> old(self).total_attempts
                == usize::MAX,
            r == Err::<(), AggregateError>(AggregateError::TooManyRuns) <==> (old(self).total_attempts
                < usize::MAX && starts_run(old(self).last_run, *rec) && old(self).runs_seen
                == BIT_LEN_LIMIT),
            r == Err::<(), AggregateError>(AggregateError::TooManyRegions) <==> (
            old(self).total_attempts < usize::MAX && !(starts_run(old(self).last_run, *rec)
                && old(self).runs_seen == BIT_LEN_LIMIT) && !old(self).interner@.contains(
                rec.region@,
            ) && old(self).interner@.len() == SYMBOL_LIMIT),
            r is Err ==> final(self).total_attempts == old(self).total_attempts
                && final(self).runs_seen == old(self).runs_seen && final(self).last_run == old(
                self,
            ).last_run && final(self).interner@ == old(self).interner@ && final(self).by_region
                == old(self).by_region && final(self).by_region_location == old(
                self,
            ).by_region_location,
            r is Ok ==> final(self).total_attempts == old(self).total_attempts + 1,
            r is Ok ==> final(self).runs_seen == old(self).runs_seen + if starts_run(
                old(self).last_run,
                *rec,
            ) {
                1int
            } else {
                0int
            },
            r is Ok ==> final(self).last_run == Some(
                (rec.seed_number, rec.iteration_number, rec.slot_number),
            ),
            r is Ok ==> exists|sym: int|
                interned_as(old(self).interner@, final(self).interner@, rec.region@, sym)
                    && sparse_added(
                    old(self).by_region@,
                    final(self).by_region@,
                    sym,
                    *rec,
                    final(self).runs_seen - 1,
                ) && sparse2_added(
                    old(self).by_region_location@,
                    final(self).by_region_location@,
                    sym,
                    rec.n as int,
                    *rec,
                    final(self).runs_seen - 1,
                ),
    {
        if self.total_attempts == usize::MAX {
            return Err(AggregateError::TooManyAttempts);
        }
        let new_run = match self.last_run {
            Some(p) => p.0 != rec.seed_number || p.1 != rec.iteration_number || p.2
                != rec.slot_number,
            None => true,
        };
        if new_run && self.runs_seen >= BIT_LEN_LIMIT {
            return Err(AggregateError::TooManyRuns);
        }
        let ghost names_before = self.interner@;
        let sym = match self.interner.intern(rec.region.as_str()) {
            Some(k) => k,
            None => {
                return Err(AggregateError::TooManyRegions);
            },
        };
        self.total_attempts = self.total_attempts + 1;
        if new_run {
            self.runs_seen = self.runs_seen + 1;
            self.last_run = Some((rec.seed_number, rec.iteration_number, rec.slot_number));
        }
        let run_index = self.runs_seen - 1;

        let ghost regions_before = self.by_region@;
        let region_accumulator = get_mut_at_with_extend(&mut self.by_region, sym as usize);
        let ghost fresh = *region_accumulator;
        region_accumulator.add(rec, run_index);
        proof {
            if (sym as int) >= regions_before.len() {
                assert(fresh.is_empty());
                lemma_empty_slot(fresh);
            }
            assert(record_added(slot(regions_before, sym as int), self.by_region@[sym as int], *rec, run_index as int));
            assert forall|k: int| 0 <= k < self.by_region@.len() && k != sym ==> if k < regions_before.len() {
                #[trigger] self.by_region@[k] == regions_before[k]
            } else {
                self.by_region@[k].is_empty()
            } by {}
        }

        let ghost rows_before = self.by_region_location@;
        let row_accumulators = get_mut_at_with_extend(&mut self.by_region_location, sym as usize);
        let ghost row_before = row_accumulators@;
        let location_accumulator = get_mut_at_with_extend(row_accumulators, rec.n as usize);
        let ghost fresh_location = *location_accumulator;
        location_accumulator.add(rec, run_index);
        proof {
            if (rec.n as int) >= row_before.len() {
                lemma_empty_slot(fresh_location);
            }
            if (sym as int) >= rows_before.len() {
                assert(row_before =~= row(rows_before, sym as int));
            }
            assert(row_before == row(rows_before, sym as int));
            assert(record_added(slot(row_before, rec.n as int), self.by_region_location@[sym as int]@[rec.n as int], *rec, run_index as int));
            assert(sparse_added(row_before, self.by_region_location@[sym as int]@, rec.n as int, *rec, run_index as int));
            assert(sparse_added(regions_before, self.by_region@, sym as int, *rec, run_index as int));
            assert(sparse2_added(rows_before, self.by_region_location@, sym as int, rec.n as int, *rec, run_index as int));
            assert(interned_as(names_before, self.interner@, rec.region@, sym as int));
        }
        Ok(())
    }

    /// Folds every accumulator once, naming each region by its string.
    pub fn finish(self) -> (r: ProcessedLocationAttempts)
        requires
            self.wf(),
        ensures
            r.total_attempts == self.total_attempts,
            r.summarized_location_attempts_by_region@.len() == self.by_region@.len(),
            forall|j: int|
                0 <= j < self.by_region@.len() ==> (
                #[trigger] r.summarized_location_attempts_by_region@[j]).0@ == self.interner@[j]
                    && r.summarized_location_attempts_by_region@[j].1 == summary_of(
                    self.by_region@[j],
                ),
            r.summarized_location_attempts_by_region_location@.len()
                == self.by_region_location@.len(),
            forall|j: int|
                0 <= j < self.by_region_location@.len() ==> (
                #[trigger] r.summarized_location_attempts_by_region_location@[j]).0@
                    == self.interner@[j]
                    && r.summarized_location_attempts_by_region_location@[j].1@.len()
                    == self.by_region_location@[j]@.len() && forall|m: int|
                    0 <= m < self.by_region_location@[j]@.len() ==> (
                    #[trigger] r.summarized_location_attempts_by_region_location@[j].1@[m])
                        == summary_of(self.by_region_location@[j]@[m]),
    {
        let LocationAttemptAggregator {
            total_attempts,
            interner,
            mut by_region,
            mut by_region_location,
            ..
        } = self;
        let ghost regions = by_region@;
        let ghost rows = by_region_location@;
        let mut by_name: Vec<(String, LocationAttemptSummary)> = Vec::new();
        let mut j: usize = 0;
        while j < by_region.len()
            invariant
                interner.wf(),
                by_region@.len() == regions.len(),
                regions.len() <= interner@.len(),
                all_wf(regions),
                j <= regions.len(),
                forall|k: int| j <= k < regions.len() ==> #[trigger] by_region@[k] == regions[k],
                by_name@.len() == j,
                forall|k: int|
                    0 <= k < j ==> (#[trigger] by_name@[k]).0@ == interner@[k] && by_name@[k].1
                        == summary_of(regions[k]),
            decreases regions.len() - j,
        {
            let name = interner.resolve(j as u16).unwrap();
            let summary = LocationAttemptSummary::summarize(&mut by_region[j]);
            by_name.push((name, summary));
            j = j + 1;
        }
        let mut by_location: Vec<(String, Vec<LocationAttemptSummary>)> = Vec::new();
        let mut j: usize = 0;
        while j < by_region_location.len()
            invariant
                interner.wf(),
                by_region_location@.len() == rows.len(),
                rows.len() <= interner@.len(),
                forall|k: int| 0 <= k < rows.len() ==> all_wf(#[trigger] rows[k]@),
                j <= rows.len(),
                forall|k: int|
                    j <= k < rows.len() ==> #[trigger] by_region_location@[k] == rows[k],
                by_location@.len() == j,
                forall|k: int|
                    0 <= k < j ==> (#[trigger] by_location@[k]).0@ == interner@[k]
                        && by_location@[k].1@.len() == rows[k]@.len() && forall|m: int|
                        0 <= m < rows[k]@.len() ==> (#[trigger] by_location@[k].1@[m])
                            == summary_of(rows[k]@[m]),
            decreases rows.len() - j,
        {
            let name = interner.resolve(j as u16).unwrap();
            let summaries = summarize_all(&mut by_region_location[j]);
            by_location.push((name, summaries));
            j = j + 1;
        }
        ProcessedLocationAttempts {
            total_attempts,
            summarized_location_attempts_by_region: by_name,
            summarized_location_attempts_by_region_location: by_location,
        }
    }
}

} // verus!
