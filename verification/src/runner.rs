//! When an evolution reports, saves and stops.
use crate::bits::{above, comparisons_chain, exceeds, not_below, rank, reaches, NEG_INFINITY};
use crate::config::CommonArgs;
use crate::text::{decimal, push_decimal};
use vstd::arithmetic::div_mod::{
    lemma_fundamental_div_mod, lemma_mod_bound, lemma_mod_multiples_basic,
    lemma_mod_multiples_vanish, lemma_mod_self_0, lemma_small_mod,
};
use vstd::prelude::*;
use vstd::string::StringExecFns;

verus! {

/// How many threads to use of `max`: as many as were asked for, or all of them.
pub open spec fn threads(requested: Option<usize>, max: usize) -> usize {
    match requested {
        Some(n) => n,
        None => max,
    }
}

/// Decides how many threads to use of `max`, and complains about a number that is
/// out of range.
pub fn thread_count(requested: Option<usize>, max: usize) -> (count: Result<usize, String>)
    ensures
        count is Ok <==> 1 <= threads(requested, max) <= max,
        count matches Ok(n) ==> n == threads(requested, max),
        count matches Err(e) ==> e@ == "thread_count must be between 1 and "@ + decimal(max as nat),
{
    let n: usize = match requested {
        Some(n) => n,
        None => max,
    };
    if n < 1 || n > max {
        let mut e = String::from_str("thread_count must be between 1 and ");
        push_decimal(&mut e, max as u64);
        Err(e)
    } else {
        Ok(n)
    }
}

/// What to do at the end of a generation.
#[derive(Clone, Copy, Debug, PartialEq, Eq, Structural)]
pub struct Action {
    /// Hand the best genome to the display.
    pub show: bool,
    /// Report on the generation and save the population.
    pub report: bool,
    /// Stop evolving.
    pub stop: bool,
}

/// Whether `n` is a multiple of `of`. Zero is the only multiple of zero.
pub open spec fn multiple(n: usize, of: usize) -> bool {
    if of == 0 {
        n == 0
    } else {
        n % of == 0
    }
}

/// Tells whether `n` is a multiple of `of`.
fn is_multiple(n: usize, of: usize) -> (m: bool)
    ensures
        m == multiple(n, of),
{
    if of == 0 {
        n == 0
    } else {
        n % of == 0
    }
}

/// Whether the fitness `fitness` is what the configuration asked for.
pub open spec fn fit_enough(fitness: u64, until: Option<u64>) -> bool {
    match until {
        Some(threshold) => not_below(fitness, threshold),
        None => false,
    }
}

/// Tells whether the fitness `fitness` is what the configuration asked for.
fn is_fit_enough(fitness: u64, until: Option<u64>) -> (f: bool)
    ensures
        f == fit_enough(fitness, until),
{
    match until {
        Some(threshold) => reaches(fitness, threshold),
        None => false,
    }
}

/// Whether generation `generation` is reported on: every so often, and only where it has a
/// fittest genome.
pub open spec fn is_reported(args: CommonArgs, generation: usize, fittest: Option<u64>) -> bool {
    multiple(generation, args.report_every) && fittest is Some
}

/// What to do at the end of generation `generation`, whose fittest genome has the fitness
/// `fittest`. Evolution stops only at a generation that is reported on.
pub open spec fn run_action(args: CommonArgs, generation: usize, fittest: Option<u64>) -> Action {
    Action {
        show: args.watch,
        report: is_reported(args, generation, fittest),
        stop: is_reported(args, generation, fittest) && (generation >= args.until_generation
            || fit_enough(fittest->0, args.until_fitness)),
    }
}

/// Decides what to do at the end of generation `generation`, whose fittest genome has
/// the fitness `fittest`.
pub fn runner_hook(args: &CommonArgs, generation: usize, fittest: Option<u64>) -> (a: Action)
    ensures
        a == run_action(*args, generation, fittest),
{
    let show = args.watch;
    if !is_multiple(generation, args.report_every) {
        return Action { show, report: false, stop: false };
    }
    match fittest {
        None => Action { show, report: false, stop: false },
        Some(fitness) => Action {
            show,
            report: true,
            stop: generation >= args.until_generation || is_fit_enough(
                fitness,
                args.until_fitness,
            ),
        },
    }
}

/// How a co-evolution has come along: the best fitness so far, and how many
/// generations have not improved on it.
#[derive(Clone, Copy, Debug)]
pub struct Progress {
    pub last_best: u64,
    pub stale: usize,
}

/// The progress after a generation whose best fitness was `fitness`.
pub open spec fn progressed(before: Progress, fitness: u64) -> Progress {
    if above(fitness, before.last_best) {
        Progress { last_best: fitness, stale: 0 }
    } else {
        Progress { last_best: before.last_best, stale: before.stale.wrapping_add(1) }
    }
}

/// What to do at the end of generation `generation` of a co-evolution, whose fittest genome
/// has the fitness `fittest`. Without such a genome the fitness counts as zero. Evolution
/// stops at once, whether the generation is reported on or not.
pub open spec fn co_run_action(
    args: CommonArgs,
    generation: usize,
    fittest: Option<u64>,
) -> Action {
    Action {
        show: args.watch,
        report: is_reported(args, generation, fittest),
        stop: generation >= args.until_generation || fit_enough(
            match fittest {
                Some(fitness) => fitness,
                None => 0,
            },
            args.until_fitness,
        ),
    }
}

impl Progress {
    /// The progress before the first generation.
    pub fn new() -> (p: Self)
        ensures
            p == no_progress(),
    {
        Progress { last_best: NEG_INFINITY, stale: 0 }
    }

    /// Takes note of generation `generation`, whose fittest genome has the fitness
    /// `fittest`, and decides what to do.
    pub fn save_hook(
        &mut self,
        args: &CommonArgs,
        generation: usize,
        fittest: Option<u64>,
    ) -> (a: Action)
        ensures
            *final(self) == (match fittest {
                Some(fitness) => progressed(*old(self), fitness),
                None => *old(self),
            }),
            a == co_run_action(*args, generation, fittest),
    {
        if let Some(fitness) = fittest {
            if exceeds(fitness, self.last_best) {
                self.last_best = fitness;
                self.stale = 0;
            } else {
                self.stale = self.stale.wrapping_add(1);
            }
        }
        let fitness: u64 = match fittest {
            Some(fitness) => fitness,
            None => 0,
        };
        Action {
            show: args.watch,
            report: is_multiple(generation, args.report_every) && fittest.is_some(),
            stop: generation >= args.until_generation || is_fit_enough(
                fitness,
                args.until_fitness,
            ),
        }
    }
}

/// The progress after generations whose best fitnesses were `fitnesses`.
pub open spec fn progressed_through(start: Progress, fitnesses: Seq<u64>) -> Progress
    decreases fitnesses.len(),
{
    if fitnesses.len() == 0 {
        start
    } else {
        progressed(progressed_through(start, fitnesses.drop_last()), fitnesses.last())
    }
}

/// The progress that every co-evolution starts with.
pub open spec fn no_progress() -> Progress {
    Progress { last_best: NEG_INFINITY, stale: 0 }
}

/// After any generations, no fitness so far was greater than the best one, and the best one
/// is among them unless none was greater than negative infinity.
pub proof fn last_best_is_the_greatest(fitnesses: Seq<u64>)
    ensures
        forall|i: int|
            0 <= i < fitnesses.len() ==> !above(
                #[trigger] fitnesses[i],
                progressed_through(no_progress(), fitnesses).last_best,
            ),
        rank(progressed_through(no_progress(), fitnesses).last_best) is Some,
        progressed_through(no_progress(), fitnesses).last_best == NEG_INFINITY
            || fitnesses.contains(progressed_through(no_progress(), fitnesses).last_best),
    decreases fitnesses.len(),
{
    if fitnesses.len() > 0 {
        let before = fitnesses.drop_last();
        let earlier = progressed_through(no_progress(), before);
        let now = progressed_through(no_progress(), fitnesses);
        last_best_is_the_greatest(before);
        assert forall|i: int| 0 <= i < fitnesses.len() implies !above(
            #[trigger] fitnesses[i],
            now.last_best,
        ) by {
            if i < before.len() {
                assert(fitnesses[i] == before[i]);
                comparisons_chain(fitnesses[i], now.last_best, earlier.last_best);
            }
        }
        if above(fitnesses.last(), earlier.last_best) {
            assert(fitnesses[fitnesses.len() - 1] == now.last_best);
        } else if earlier.last_best != NEG_INFINITY {
            let k = choose|k: int| 0 <= k < before.len() && before[k] == earlier.last_best;
            assert(fitnesses[k] == now.last_best);
        }
    }
}

/// After generations that brought no improvement, the best fitness is what it was, and the
/// counter has counted them.
pub proof fn stale_counts_generations(start: Progress, fitnesses: Seq<u64>)
    requires
        forall|i: int|
            0 <= i < fitnesses.len() ==> !above(#[trigger] fitnesses[i], start.last_best),
        start.stale + fitnesses.len() <= usize::MAX,
    ensures
        progressed_through(start, fitnesses).last_best == start.last_best,
        progressed_through(start, fitnesses).stale == start.stale + fitnesses.len(),
    decreases fitnesses.len(),
{
    if fitnesses.len() > 0 {
        let before = fitnesses.drop_last();
        assert forall|i: int| 0 <= i < before.len() implies !above(
            #[trigger] before[i],
            start.last_best,
        ) by {
            assert(before[i] == fitnesses[i]);
        }
        stale_counts_generations(start, before);
        assert(fitnesses.last() == fitnesses[fitnesses.len() - 1]);
    }
}

/// A run is reported on and saved before it stops.
pub proof fn runs_are_reported_before_they_stop(
    args: CommonArgs,
    generation: usize,
    fittest: Option<u64>,
)
    ensures
        run_action(args, generation, fittest).stop ==> run_action(
            args,
            generation,
            fittest,
        ).report,
{
}

/// A run whose generations have a fittest genome stops within one report interval of the
/// generation that it is to go on until.
pub proof fn runs_stop(args: CommonArgs, fitness: u64) -> (generation: usize)
    requires
        args.report_every > 0,
        args.until_generation + args.report_every <= usize::MAX,
    ensures
        args.until_generation <= generation < args.until_generation + args.report_every,
        run_action(args, generation, Some(fitness)).stop,
{
    let every = args.report_every as int;
    let until = args.until_generation as int;
    let generation = until + (every - until % every) % every;
    lemma_mod_bound(until, every);
    lemma_mod_bound(every - until % every, every);
    assert(generation % every == 0) by {
        let r = until % every;
        lemma_fundamental_div_mod(until, every);
        let q = until / every;
        assert(until == every * q + r);
        if r == 0 {
            lemma_mod_self_0(every);
            assert(generation == until);
        } else {
            lemma_small_mod((every - r) as nat, every as nat);
            assert(generation == every * q + every);
            assert(every * q + every == every * (q + 1)) by (nonlinear_arith);
            lemma_mod_multiples_basic(q + 1, every);
            assert(every * (q + 1) == (q + 1) * every) by (nonlinear_arith);
        }
    }
    generation as usize
}

/// A co-evolution stops at the generation that it is to go on until and at every later one.
pub proof fn co_evolutions_stop(args: CommonArgs, generation: usize, fittest: Option<u64>)
    requires
        generation >= args.until_generation,
    ensures
        co_run_action(args, generation, fittest).stop,
{
}

/// As many threads are used as were asked for, and all of them where nothing was.
pub proof fn threads_are_those_asked_for(n: usize, max: usize)
    ensures
        threads(Some(n), max) == n,
        threads(None, max) == max,
{
}

/// Zero is a multiple of every number, and of itself the only one; a number is a multiple of
/// another exactly where it still is after taking that one off, which no smaller one but
/// zero can bear.
pub proof fn multiples_are_regular(n: usize, of: usize)
    ensures
        multiple(0, of),
        multiple(n, 0) <==> n == 0,
        0 < n < of ==> !multiple(n, of),
        0 < of <= n ==> (multiple(n, of) <==> multiple((n - of) as usize, of)),
{
    if 0 < of <= n {
        lemma_mod_multiples_vanish(1, (n - of) as int, of as int);
        assert(of as int * 1 + (n - of) == n);
    } else if 0 < n < of {
        lemma_small_mod(n as nat, of as nat);
    }
    if of > 0 {
        lemma_small_mod(0, of as nat);
    }
}

/// A fitness is enough exactly where one was asked for and, of two numbers, it is not the
/// smaller.
pub proof fn enough_is_what_was_asked_for(fitness: u64, threshold: u64)
    ensures
        !fit_enough(fitness, None),
        fit_enough(fitness, Some(threshold)) <==> rank(fitness) is Some && rank(threshold) is Some
            && !above(threshold, fitness),
{
}

/// Generations are reported on at whole multiples of the interval, where there is a fittest
/// genome. A run stops there once it has gone on for long enough or become fit enough, and
/// nowhere else; a co-evolution stops in any generation.
pub proof fn actions_follow_the_configuration(
    args: CommonArgs,
    generation: usize,
    fitness: u64,
)
    ensures
        ({
            let due = multiple(generation, args.report_every);
            let done = generation >= args.until_generation || (args.until_fitness is Some
                && not_below(fitness, args.until_fitness->0));
            let run = run_action(args, generation, Some(fitness));
            let co_run = co_run_action(args, generation, Some(fitness));
            &&& run.show == args.watch && co_run.show == args.watch
            &&& run.report == due && co_run.report == due
            &&& run.stop == (due && done)
            &&& co_run.stop == done
        }),
{
}

/// Without a fittest genome nothing is reported on and a run goes on; a co-evolution goes by
/// a fitness of zero.
pub proof fn actions_without_a_genome(args: CommonArgs, generation: usize)
    ensures
        ({
            let run = run_action(args, generation, None);
            let co_run = co_run_action(args, generation, None);
            &&& run.show == args.watch && co_run.show == args.watch
            &&& !run.report && !co_run.report
            &&& !run.stop
            &&& co_run.stop == co_run_action(args, generation, Some(0)).stop
        }),
{
}

/// A greater fitness becomes the best one and starts the count of stale generations again;
/// any other leaves the best one as it is and is counted.
pub proof fn improvements_start_again(before: Progress, fitness: u64)
    ensures
        above(fitness, before.last_best) ==> progressed(before, fitness).last_best == fitness
            && progressed(before, fitness).stale == 0,
        !above(fitness, before.last_best) ==> progressed(before, fitness).last_best
            == before.last_best && (before.stale < usize::MAX ==> progressed(before, fitness).stale
            == before.stale + 1),
        no_progress().last_best == 0xFFF0_0000_0000_0000,
        no_progress().stale == 0,
{
}

} // verus!
