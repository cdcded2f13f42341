//! Timing of the pipeline steps and the tally of a batch.
//!
//! The clock is `std::time::Instant`. What it reads depends on when it is
//! read, so nothing is promised of a reading but that it is a number of
//! nanoseconds. What is done with the readings is stated exactly: a stopwatch
//! keeps them as numbers, so that its total covers the time of its steps
//! whatever the clock said, and a batch adds the times up by step.
use std::time::Instant;
use vstd::prelude::*;
use vstd::string::*;
use vstd::utf8::{encode_utf8, is_char_boundary};

verus! {

/// `std::time::Instant`, taken as a whole: a moment of the clock, of which
/// nothing is known.
#[verifier::external_type_specification]
#[verifier::external_body]
pub struct ExInstant(std::time::Instant);

/// `Instant::now`: the present moment.
#[verifier::external_body]
fn clock_now() -> Instant {
    Instant::now()
}

/// `Instant::elapsed`: the time that has passed since `start`, in
/// nanoseconds.
#[verifier::external_body]
fn clock_elapsed(start: &Instant) -> u128 {
    start.elapsed().as_nanos()
}

/// One timed step of the pipeline.
#[derive(Debug)]
pub struct StepBenchmark {
    pub name: String,
    /// The time the step took, in nanoseconds.
    pub duration: u128,
}

/// A stopwatch that records how long each named step took.
#[derive(Debug)]
pub struct Benchmark {
    /// The moment the stopwatch was started.
    origin: Instant,
    /// The time from the start to the end of the last step, or to the end of
    /// starting where there is no step yet, in nanoseconds.
    mark: u128,
    steps: Vec<StepBenchmark>,
}

/// The name and the time of each step of a list.
pub open spec fn step_times(steps: Seq<StepBenchmark>) -> Seq<(Seq<char>, u128)> {
    Seq::new(steps.len(), |i: int| (steps[i].name@, steps[i].duration))
}

/// The time from a mark to a reading of the clock, none where the reading is
/// the earlier of the two.
pub open spec fn time_between(mark: u128, reading: u128) -> u128 {
    if reading > mark {
        (reading - mark) as u128
    } else {
        0
    }
}

/// The later of two times.
pub open spec fn later_of(a: u128, b: u128) -> u128 {
    if b > a {
        b
    } else {
        a
    }
}

/// The time that the first `n` steps of a list took together.
pub open spec fn time_of(steps: Seq<StepBenchmark>, n: nat) -> int
    decreases n,
{
    if n == 0 {
        0
    } else {
        time_of(steps, (n - 1) as nat) + steps[n - 1].duration
    }
}

/// No step took longer than all steps together.
pub proof fn lemma_step_within_time(steps: Seq<StepBenchmark>, n: nat, i: int)
    requires
        0 <= i < n <= steps.len(),
    ensures
        0 <= steps[i].duration <= time_of(steps, n),
        0 <= time_of(steps, i as nat) <= time_of(steps, n),
    decreases n,
{
    if i < n - 1 {
        lemma_step_within_time(steps, (n - 1) as nat, i);
    } else {
        lemma_time_of_is_positive(steps, i as nat);
    }
}

/// Steps take no negative time.
pub proof fn lemma_time_of_is_positive(steps: Seq<StepBenchmark>, n: nat)
    ensures
        0 <= time_of(steps, n),
    decreases n,
{
    if n > 0 {
        lemma_time_of_is_positive(steps, (n - 1) as nat);
    }
}

/// The time of a list of steps does not depend on what follows them.
pub proof fn lemma_time_of_prefix(steps: Seq<StepBenchmark>, longer: Seq<StepBenchmark>, n: nat)
    requires
        n <= steps.len() <= longer.len(),
        forall|i: int| 0 <= i < steps.len() ==> steps[i] == longer[i],
    ensures
        time_of(steps, n) == time_of(longer, n),
    decreases n,
{
    if n > 0 {
        lemma_time_of_prefix(steps, longer, (n - 1) as nat);
    }
}

impl View for Benchmark {
    type V = Seq<StepBenchmark>;

    /// The steps recorded so far, oldest first.
    closed spec fn view(&self) -> Seq<StepBenchmark> {
        self.steps@
    }
}

impl Benchmark {
    #[verifier::type_invariant]
    spec fn covers_its_steps(self) -> bool {
        time_of(self.steps@, self.steps@.len()) <= self.mark
    }

    /// The time from the start of the stopwatch to the end of its last step,
    /// in nanoseconds.
    pub closed spec fn spec_total(&self) -> u128 {
        self.mark
    }

    /// Starts a stopwatch with no step recorded.
    pub fn now() -> (benchmark: Benchmark)
        ensures
            benchmark@.len() == 0,
    {
        let origin = clock_now();
        let mark = clock_elapsed(&origin);
        Benchmark { origin, mark, steps: Vec::new() }
    }

    /// The moment the stopwatch was started.
    pub closed spec fn spec_origin(&self) -> Instant {
        self.origin
    }

    /// Records a step that ends at `reading`, a time in nanoseconds from the
    /// start of the stopwatch. The step takes the time from the end of the
    /// step before to the reading, no time where the reading is earlier than
    /// that, and the total goes on to the reading.
    pub fn record(&mut self, name: &str, reading: u128)
        ensures
            final(self)@.len() == old(self)@.len() + 1,
            final(self)@.drop_last() == old(self)@,
            final(self)@.last().name@ == name@,
            final(self)@.last().duration == time_between(old(self).spec_total(), reading),
            final(self).spec_total() == later_of(old(self).spec_total(), reading),
            final(self).spec_origin() == old(self).spec_origin(),
    {
        proof {
            use_type_invariant(&*self);
        }
        let mut taken = Benchmark { origin: self.origin, mark: 0, steps: Vec::new() };
        core::mem::swap(self, &mut taken);
        let Benchmark { origin, mark, steps } = taken;
        let mut steps = steps;
        let ghost before = steps@;
        let (duration, end) = if reading > mark {
            (reading - mark, reading)
        } else {
            (0, mark)
        };
        steps.push(StepBenchmark { name: String::from_str(name), duration });
        proof {
            lemma_time_of_prefix(before, steps@, before.len());
            assert(steps@.drop_last() =~= before);
        }
        *self = Benchmark { origin, mark: end, steps };
    }

    /// Starts timing the next step at `reading`, a time in nanoseconds from
    /// the start of the stopwatch: the total goes on to the reading, and
    /// stays where the reading is earlier.
    pub fn resume(&mut self, reading: u128)
        ensures
            final(self)@ == old(self)@,
            final(self).spec_total() == later_of(old(self).spec_total(), reading),
            final(self).spec_origin() == old(self).spec_origin(),
    {
        proof {
            use_type_invariant(&*self);
        }
        if reading > self.mark {
            self.mark = reading;
        }
    }

    /// Records the time since the previous step, or since the start, under
    /// `name`, and starts timing the next step: it reads the clock, records
    /// the step at that reading, reads the clock again and resumes there. The
    /// total grows by the time of the step at least.
    pub fn step(&mut self, name: &str)
        ensures
            final(self)@.len() == old(self)@.len() + 1,
            final(self)@.drop_last() == old(self)@,
            final(self)@.last().name@ == name@,
            final(self).spec_total() >= old(self).spec_total() + final(self)@.last().duration,
            final(self).spec_origin() == old(self).spec_origin(),
    {
        let reading = clock_elapsed(&self.origin);
        self.record(name, reading);
        let restart = clock_elapsed(&self.origin);
        self.resume(restart);
    }

    /// The steps recorded so far, oldest first.
    pub fn get_steps(&self) -> (steps: &Vec<StepBenchmark>)
        ensures
            steps@ == self@,
    {
        &self.steps
    }

    /// The time from the start of the stopwatch to the end of its last step,
    /// in nanoseconds. It covers the time of all steps, and so that of each.
    pub fn get_total_duration(&self) -> (total: u128)
        ensures
            total == self.spec_total(),
            time_of(self@, self@.len()) <= total,
            forall|i: int| 0 <= i < self@.len() ==> (#[trigger] self@[i]).duration <= total,
    {
        proof {
            use_type_invariant(self);
            assert forall|i: int| 0 <= i < self.steps@.len() implies (
            #[trigger] self.steps@[i]).duration <= self.mark by {
                lemma_step_within_time(self.steps@, self.steps@.len(), i);
            }
        }
        self.mark
    }
}

/// The size of the meshes made from one polygon.
#[derive(Clone, Copy, Debug, PartialEq, Eq, Structural)]
pub struct MeshStats {
    pub vertex_count_2d: usize,
    pub triangle_count_2d: usize,
    pub vertex_count_3d: usize,
    pub triangle_count_3d: usize,
}

/// What processing one input file gave.
#[derive(Debug)]
pub struct ProcessingResult {
    pub input: String,
    pub width: u32,
    pub height: u32,
    pub polygon_count: usize,
    pub mesh_stats: Vec<MeshStats>,
    pub benchmarks: Benchmark,
    /// The time the file took, in nanoseconds.
    pub total_duration: u128,
}

/// The time that one named step took over a whole batch.
#[derive(Debug)]
pub struct StepSummary {
    pub name: String,
    /// The time of all steps of this name, in nanoseconds.
    pub total: u128,
    /// How many steps of this name there were.
    pub count: usize,
}

/// The tally of a batch of input files.
#[derive(Debug)]
pub struct ProcessingStats {
    pub total_files: usize,
    pub processed: usize,
    pub failed: usize,
    pub total_polygons: usize,
    pub total_vertices_2d: usize,
    pub total_vertices_3d: usize,
    pub total_triangles_2d: usize,
    pub total_triangles_3d: usize,
    /// The time of all processed files, in nanoseconds.
    pub total_processing_time: u128,
    pub benchmarks_summary: Vec<StepSummary>,
}

/// A count that stops at the largest number a counter can hold.
pub open spec fn capped(n: int) -> usize {
    if n > usize::MAX {
        usize::MAX
    } else {
        n as usize
    }
}

/// A time that stops at the longest time a timer can hold.
pub open spec fn capped_time(n: int) -> u128 {
    if n > u128::MAX {
        u128::MAX
    } else {
        n as u128
    }
}

/// Adds to a counter, stopping at the largest number it can hold.
fn plus(a: usize, b: usize) -> (sum: usize)
    ensures
        sum == capped(a + b),
{
    if a > usize::MAX - b {
        usize::MAX
    } else {
        a + b
    }
}

/// Adds to a timer, stopping at the longest time it can hold.
fn plus_time(a: u128, b: u128) -> (sum: u128)
    ensures
        sum == capped_time(a + b),
{
    if a > u128::MAX - b {
        u128::MAX
    } else {
        a + b
    }
}

/// The counts of a tally after the meshes of the first `n` polygons were
/// added: 2D vertices, 3D vertices, 2D triangles, 3D triangles.
pub open spec fn with_meshes(start: (usize, usize, usize, usize), meshes: Seq<MeshStats>, n: nat) -> (
    usize,
    usize,
    usize,
    usize,
)
    decreases n,
{
    if n == 0 {
        start
    } else {
        let before = with_meshes(start, meshes, (n - 1) as nat);
        let mesh = meshes[n - 1];
        (
            capped(before.0 + mesh.vertex_count_2d),
            capped(before.1 + mesh.vertex_count_3d),
            capped(before.2 + mesh.triangle_count_2d),
            capped(before.3 + mesh.triangle_count_3d),
        )
    }
}

/// The entries of a step summary: name, time and number of steps.
pub open spec fn step_totals(summary: Seq<StepSummary>) -> Seq<(Seq<char>, u128, usize)> {
    Seq::new(summary.len(), |i: int| (summary[i].name@, summary[i].total, summary[i].count))
}

/// The first entry at or after `from` that has the given name, or the
/// length of the summary where none has.
pub open spec fn entry_of(entries: Seq<(Seq<char>, u128, usize)>, name: Seq<char>, from: int) -> int
    decreases entries.len() - from,
{
    if from < 0 || from >= entries.len() {
        entries.len() as int
    } else if entries[from].0 == name {
        from
    } else {
        entry_of(entries, name, from + 1)
    }
}

/// The summary after one more step was seen: the entry of its name has its
/// time added and counts one more, or a new entry is added at the end.
pub open spec fn tallied(entries: Seq<(Seq<char>, u128, usize)>, step: (Seq<char>, u128)) -> Seq<
    (Seq<char>, u128, usize),
> {
    let at = entry_of(entries, step.0, 0);
    if at < entries.len() {
        entries.update(
            at,
            (step.0, capped_time(entries[at].1 + step.1), capped(entries[at].2 + 1)),
        )
    } else {
        entries.push((step.0, step.1, 1))
    }
}

/// The summary after the first `n` of the given steps were seen.
pub open spec fn tallied_all(
    entries: Seq<(Seq<char>, u128, usize)>,
    steps: Seq<(Seq<char>, u128)>,
    n: nat,
) -> Seq<(Seq<char>, u128, usize)>
    decreases n,
{
    if n == 0 {
        entries
    } else {
        tallied(tallied_all(entries, steps, (n - 1) as nat), steps[n - 1])
    }
}

impl ProcessingStats {
    /// The tally of a batch of `total_files` files, none processed yet.
    pub fn new(total_files: usize) -> (stats: ProcessingStats)
        ensures
            stats.total_files == total_files,
            stats.processed == 0,
            stats.failed == 0,
            stats.total_polygons == 0,
            stats.total_vertices_2d == 0,
            stats.total_vertices_3d == 0,
            stats.total_triangles_2d == 0,
            stats.total_triangles_3d == 0,
            stats.total_processing_time == 0,
            stats.benchmarks_summary@.len() == 0,
    {
        ProcessingStats {
            total_files,
            processed: 0,
            failed: 0,
            total_polygons: 0,
            total_vertices_2d: 0,
            total_vertices_3d: 0,
            total_triangles_2d: 0,
            total_triangles_3d: 0,
            total_processing_time: 0,
            benchmarks_summary: Vec::new(),
        }
    }

    /// Adds the result of one file: the file counts as processed, its
    /// polygons, its meshes and its time are added to the totals, and each of
    /// its steps is added to the entry of its name in the summary. Every
    /// counter and every timer stops at the largest number it can hold.
    pub fn add_result(&mut self, result: ProcessingResult)
        ensures
            final(self).total_files == old(self).total_files,
            final(self).failed == old(self).failed,
            final(self).processed == capped(old(self).processed + 1),
            final(self).total_polygons == capped(old(self).total_polygons + result.polygon_count),
            final(self).total_processing_time == capped_time(
                old(self).total_processing_time + result.total_duration,
            ),
            (
                final(self).total_vertices_2d,
                final(self).total_vertices_3d,
                final(self).total_triangles_2d,
                final(self).total_triangles_3d,
            ) == with_meshes(
                (
                    old(self).total_vertices_2d,
                    old(self).total_vertices_3d,
                    old(self).total_triangles_2d,
                    old(self).total_triangles_3d,
                ),
                result.mesh_stats@,
                result.mesh_stats@.len(),
            ),
            step_totals(final(self).benchmarks_summary@) == tallied_all(
                step_totals(old(self).benchmarks_summary@),
                step_times(result.benchmarks@),
                result.benchmarks@.len(),
            ),
    {
        self.processed = plus(self.processed, 1);
        self.total_polygons = plus(self.total_polygons, result.polygon_count);
        self.total_processing_time = plus_time(self.total_processing_time, result.total_duration);
        let ghost start = (
            self.total_vertices_2d,
            self.total_vertices_3d,
            self.total_triangles_2d,
            self.total_triangles_3d,
        );
        let mut i: usize = 0;
        while i < result.mesh_stats.len()
            invariant
                i <= result.mesh_stats@.len(),
                self.total_files == old(self).total_files,
                self.failed == old(self).failed,
                self.processed == capped(old(self).processed + 1),
                self.total_polygons == capped(old(self).total_polygons + result.polygon_count),
                self.total_processing_time == capped_time(
                    old(self).total_processing_time + result.total_duration,
                ),
                self.benchmarks_summary == old(self).benchmarks_summary,
                (
                    self.total_vertices_2d,
                    self.total_vertices_3d,
                    self.total_triangles_2d,
                    self.total_triangles_3d,
                ) == with_meshes(start, result.mesh_stats@, i as nat),
            decreases result.mesh_stats@.len() - i,
        {
            let mesh = result.mesh_stats[i];
            self.total_vertices_2d = plus(self.total_vertices_2d, mesh.vertex_count_2d);
            self.total_vertices_3d = plus(self.total_vertices_3d, mesh.vertex_count_3d);
            self.total_triangles_2d = plus(self.total_triangles_2d, mesh.triangle_count_2d);
            self.total_triangles_3d = plus(self.total_triangles_3d, mesh.triangle_count_3d);
            i += 1;
        }
        let steps = result.benchmarks.get_steps();
        let ghost times = step_times(steps@);
        let ghost first = step_totals(self.benchmarks_summary@);
        let mut k: usize = 0;
        while k < steps.len()
            invariant
                k <= steps@.len(),
                times == step_times(steps@),
                self.total_files == old(self).total_files,
                self.failed == old(self).failed,
                self.processed == capped(old(self).processed + 1),
                self.total_polygons == capped(old(self).total_polygons + result.polygon_count),
                self.total_processing_time == capped_time(
                    old(self).total_processing_time + result.total_duration,
                ),
                (
                    self.total_vertices_2d,
                    self.total_vertices_3d,
                    self.total_triangles_2d,
                    self.total_triangles_3d,
                ) == with_meshes(start, result.mesh_stats@, result.mesh_stats@.len()),
                step_totals(self.benchmarks_summary@) == tallied_all(first, times, k as nat),
            decreases steps@.len() - k,
        {
            let step = &steps[k];
            let ghost entries = step_totals(self.benchmarks_summary@);
            let mut at: usize = 0;
            while at < self.benchmarks_summary.len() && !(self.benchmarks_summary[at].name
                == step.name)
                invariant
                    at <= self.benchmarks_summary@.len(),
                    entries == step_totals(self.benchmarks_summary@),
                    entry_of(entries, step.name@, 0) == entry_of(entries, step.name@, at as int),
                decreases self.benchmarks_summary@.len() - at,
            {
                assert(entries[at as int].0 == self.benchmarks_summary@[at as int].name@);
                at += 1;
            }
            if at < self.benchmarks_summary.len() {
                assert(entries[at as int].0 == self.benchmarks_summary@[at as int].name@);
                let entry = &self.benchmarks_summary[at];
                let updated = StepSummary {
                    name: entry.name.clone(),
                    total: plus_time(entry.total, step.duration),
                    count: plus(entry.count, 1),
                };
                self.benchmarks_summary.set(at, updated);
            } else {
                self.benchmarks_summary.push(
                    StepSummary { name: step.name.clone(), total: step.duration, count: 1 },
                );
            }
            assert(times[k as int] == (step.name@, step.duration));
            assert(step_totals(self.benchmarks_summary@) =~= tallied(entries, times[k as int]));
            k += 1;
        }
    }

    /// Counts one more file that could not be processed.
    pub fn add_failure(&mut self)
        ensures
            final(self).failed == capped(old(self).failed + 1),
            final(self).total_files == old(self).total_files,
            final(self).processed == old(self).processed,
            final(self).total_polygons == old(self).total_polygons,
            final(self).total_vertices_2d == old(self).total_vertices_2d,
            final(self).total_vertices_3d == old(self).total_vertices_3d,
            final(self).total_triangles_2d == old(self).total_triangles_2d,
            final(self).total_triangles_3d == old(self).total_triangles_3d,
            final(self).total_processing_time == old(self).total_processing_time,
            final(self).benchmarks_summary == old(self).benchmarks_summary,
    {
        self.failed = plus(self.failed, 1);
    }
}

/// Whether `out` is the text of `bytes` cut after `cut` bytes, with three dots
/// in place of the rest.
pub open spec fn is_cut(bytes: Seq<u8>, cut: int, out: Seq<char>) -> bool {
    exists|head: Seq<char>| #[trigger]
        encode_utf8(head) == bytes.subrange(0, cut) && out == head + "..."@
}

/// Shortens a text for a column of `max_len` bytes: a text that fits stays
/// as it is; a longer one is cut three bytes short of `max_len` and ends in
/// three dots.
///
/// The cut must fall between two characters, and there must be room for the
/// dots.
pub fn truncate_string(s: &str, max_len: usize) -> (out: String)
    requires
        s.spec_bytes().len() > max_len ==> max_len >= 3 && is_char_boundary(
            s.spec_bytes(),
            max_len - 3,
        ),
    ensures
        s.spec_bytes().len() <= max_len ==> out@ == s@,
        s.spec_bytes().len() > max_len ==> is_cut(s.spec_bytes(), max_len - 3, out@),
{
    if s.as_bytes().len() <= max_len {
        String::from_str(s)
    } else {
        let (head, _) = s.split_at(max_len - 3);
        let mut out = String::from_str(head);
        out.append("...");
        assert(encode_utf8(head@) == s.spec_bytes().subrange(0, max_len - 3) && out@ == head@
            + "..."@);
        assert(is_cut(s.spec_bytes(), max_len - 3, out@));
        out
    }
}

} // verus!
