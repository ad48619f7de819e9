//! Shared configuration.
use crate::text::{split_words, words};
use vstd::prelude::*;

verus! {

/// What every scenario is configured with. Numbers that are not whole are held as
/// their binary64 bit patterns.
#[derive(Clone, Copy, Debug)]
pub struct CommonArgs {
    pub until_generation: usize,
    pub until_fitness: Option<u64>,
    pub report_every: usize,
    pub population: usize,
    pub watch: bool,
    pub thread_count: Option<usize>,
    pub specie_threshold: u64,
    pub no_improvement_truncate: usize,
    pub no_improvement_floor: usize,
    pub copy_denom: usize,
    pub specie_youth_fac: u64,
    pub specie_youth_dropoff: usize,
    pub specie_min_pop: usize,
}

/// The part of the configuration that steers evolution itself.
#[derive(Clone, Copy, Debug)]
pub struct EvolutionConfig {
    pub specie_threshold: u64,
    pub no_improvement_truncate: usize,
    pub no_improvement_floor: usize,
    pub copy_denom: usize,
    pub specie_youth_fac: u64,
    pub specie_youth_dropoff: usize,
    pub specie_min_pop: usize,
}

/// The pattern of four.
pub const FOUR: u64 = 0x4010_0000_0000_0000;

/// The pattern of two.
pub const TWO: u64 = 0x4000_0000_0000_0000;

/// The configuration that holds where nothing else is asked for.
pub open spec fn default_args() -> CommonArgs {
    CommonArgs {
        until_generation: 400,
        until_fitness: None,
        report_every: 10,
        population: 100,
        watch: false,
        thread_count: None,
        specie_threshold: FOUR,
        no_improvement_truncate: 10,
        no_improvement_floor: 2,
        copy_denom: 4,
        specie_youth_fac: TWO,
        specie_youth_dropoff: 10,
        specie_min_pop: 2,
    }
}

impl Default for CommonArgs {
    fn default() -> (args: Self)
        ensures
            args == default_args(),
    {
        CommonArgs {
            until_generation: 400,
            until_fitness: None,
            report_every: 10,
            population: 100,
            watch: false,
            thread_count: None,
            specie_threshold: FOUR,
            no_improvement_truncate: 10,
            no_improvement_floor: 2,
            copy_denom: 4,
            specie_youth_fac: TWO,
            specie_youth_dropoff: 10,
            specie_min_pop: 2,
        }
    }
}

impl CommonArgs {
    /// Picks out what steers evolution itself.
    pub fn evolution_config(&self) -> (config: EvolutionConfig)
        ensures
            config.specie_threshold == self.specie_threshold,
            config.no_improvement_truncate == self.no_improvement_truncate,
            config.no_improvement_floor == self.no_improvement_floor,
            config.copy_denom == self.copy_denom,
            config.specie_youth_fac == self.specie_youth_fac,
            config.specie_youth_dropoff == self.specie_youth_dropoff,
            config.specie_min_pop == self.specie_min_pop,
    {
        EvolutionConfig {
            specie_threshold: self.specie_threshold,
            no_improvement_truncate: self.no_improvement_truncate,
            no_improvement_floor: self.no_improvement_floor,
            copy_denom: self.copy_denom,
            specie_youth_fac: self.specie_youth_fac,
            specie_youth_dropoff: self.specie_youth_dropoff,
            specie_min_pop: self.specie_min_pop,
        }
    }
}

/// A whole configuration file.
///
/// ```yaml
/// package: nes-mario
/// dir: ./genomes/mario
/// extra: "--seed 0 --level 3"
/// until_generation: 400
/// population: 150
/// ```
///
/// All fields except `package` and `dir` are optional and default to the values of
/// [`CommonArgs`].
#[derive(Debug)]
pub struct Config {
    pub package: String,
    pub dir: String,
    pub extra: String,
    pub common: CommonArgs,
}

impl Default for Config {
    fn default() -> (config: Self)
        ensures
            config.package@.len() == 0,
            config.dir@.len() == 0,
            config.extra@.len() == 0,
            config.common == default_args(),
    {
        Config {
            package: String::new(),
            dir: String::new(),
            extra: String::new(),
            common: CommonArgs::default(),
        }
    }
}

impl Config {
    /// Splits the extra arguments at white space.
    pub fn extra_vec(&self) -> (list: Vec<String>)
        ensures
            list@.len() == words(self.extra@).len(),
            forall|i: int|
                0 <= i < list@.len() ==> #[trigger] list@[i]@ == words(self.extra@)[i],
    {
        split_words(self.extra.as_str())
    }
}

/// Where nothing else is asked for, a run takes four hundred generations of a hundred genomes
/// and reports every ten of them, on all the threads there are and without a display. Species
/// are four apart, keep at least two genomes, and are favoured twofold for ten generations.
pub proof fn defaults_are_moderate()
    ensures
        ({
            let args = default_args();
            &&& args.until_generation == 400
            &&& args.until_fitness is None
            &&& args.report_every == 10
            &&& args.population == 100
            &&& !args.watch
            &&& args.thread_count is None
            &&& args.specie_threshold == 0x4010_0000_0000_0000
            &&& args.no_improvement_truncate == 10
            &&& args.no_improvement_floor == 2
            &&& args.copy_denom == 4
            &&& args.specie_youth_fac == 0x4000_0000_0000_0000
            &&& args.specie_youth_dropoff == 10
            &&& args.specie_min_pop == 2
        }),
{
}

} // verus!
