use eevee_eval::cli::{cli_run, find_package, list_packages, unknown_package, Command};
use eevee_eval::runner::{runner_hook, thread_count, Action, Progress};
use eevee_eval::{CommonArgs, Config};

fn names() -> Vec<String> {
    ["nes-tetris", "tetris-c", "ataxx", "tetris-c"].iter().map(|s| s.to_string()).collect()
}

fn number(v: f64) -> Option<u64> {
    Some(v.to_bits())
}

#[test]
fn defaults_are_the_documented_ones() {
    let args = CommonArgs::default();
    assert_eq!(args.until_generation, 400);
    assert_eq!(args.until_fitness, None);
    assert_eq!(args.report_every, 10);
    assert_eq!(args.population, 100);
    assert!(!args.watch);
    assert_eq!(args.thread_count, None);
    assert_eq!(f64::from_bits(args.specie_threshold), 4.0);
    assert_eq!(args.no_improvement_truncate, 10);
    assert_eq!(args.no_improvement_floor, 2);
    assert_eq!(args.copy_denom, 4);
    assert_eq!(f64::from_bits(args.specie_youth_fac), 2.0);
    assert_eq!(args.specie_youth_dropoff, 10);
    assert_eq!(args.specie_min_pop, 2);
}

#[test]
fn evolution_gets_its_part_of_the_configuration() {
    let args = CommonArgs {
        specie_threshold: 1.5f64.to_bits(),
        no_improvement_truncate: 3,
        no_improvement_floor: 4,
        copy_denom: 5,
        specie_youth_fac: 2.5f64.to_bits(),
        specie_youth_dropoff: 6,
        specie_min_pop: 7,
        ..CommonArgs::default()
    };
    let config = args.evolution_config();
    assert_eq!(f64::from_bits(config.specie_threshold), 1.5);
    assert_eq!(config.no_improvement_truncate, 3);
    assert_eq!(config.no_improvement_floor, 4);
    assert_eq!(config.copy_denom, 5);
    assert_eq!(f64::from_bits(config.specie_youth_fac), 2.5);
    assert_eq!(config.specie_youth_dropoff, 6);
    assert_eq!(config.specie_min_pop, 7);
}

#[test]
fn a_default_configuration_is_empty() {
    let config = Config::default();
    assert_eq!(config.package, "");
    assert_eq!(config.dir, "");
    assert_eq!(config.extra, "");
    assert_eq!(config.common.population, 100);
    assert!(config.extra_vec().is_empty());
}

#[test]
fn extra_arguments_are_split() {
    let config = Config { extra: String::from("--seed 0 --level 3"), ..Config::default() };
    assert_eq!(config.extra_vec(), ["--seed", "0", "--level", "3"]);
}

#[test]
fn the_first_argument_chooses_the_command() {
    assert_eq!(cli_run(&None), Command::List);
    assert_eq!(cli_run(&Some(String::from("-l"))), Command::List);
    assert_eq!(cli_run(&Some(String::from("--list"))), Command::List);
    assert_eq!(cli_run(&Some(String::from("run.yaml"))), Command::Run);
    assert_eq!(cli_run(&Some(String::from(""))), Command::Run);
    assert_eq!(cli_run(&Some(String::from("-L"))), Command::Run);
}

#[test]
fn the_first_package_of_a_name_is_found() {
    assert_eq!(find_package(&names(), &String::from("tetris-c")), Some(1));
    assert_eq!(find_package(&names(), &String::from("ataxx")), Some(2));
    assert_eq!(find_package(&names(), &String::from("mario")), None);
    assert_eq!(find_package(&[], &String::from("ataxx")), None);
}

#[test]
fn packages_are_listed_one_to_a_line() {
    assert_eq!(list_packages(&names()), "nes-tetris\ntetris-c\nataxx\ntetris-c\n");
    assert_eq!(list_packages(&[]), "");
}

#[test]
fn unknown_packages_are_complained_about() {
    assert_eq!(unknown_package("chess"), "unknown package 'chess'. Use -l to list.");
}

#[test]
fn threads_are_counted() {
    assert_eq!(thread_count(None, 8), Ok(8));
    assert_eq!(thread_count(Some(1), 8), Ok(1));
    assert_eq!(thread_count(Some(8), 8), Ok(8));
    let complaint = Err(String::from("thread_count must be between 1 and 8"));
    assert_eq!(thread_count(Some(0), 8), complaint);
    assert_eq!(thread_count(Some(9), 8), complaint);
    assert_eq!(
        thread_count(None, 0),
        Err(String::from("thread_count must be between 1 and 0"))
    );
}

#[test]
fn a_run_reports_on_every_tenth_generation() {
    let args = CommonArgs { watch: true, ..CommonArgs::default() };
    let idle = Action { show: true, report: false, stop: false };
    let report = Action { show: true, report: true, stop: false };
    assert_eq!(runner_hook(&args, 0, number(1.0)), report);
    assert_eq!(runner_hook(&args, 1, number(1.0)), idle);
    assert_eq!(runner_hook(&args, 10, number(1.0)), report);
    assert_eq!(runner_hook(&args, 10, None), idle);
}

#[test]
fn a_run_stops_only_where_it_reports() {
    let args = CommonArgs { until_generation: 25, ..CommonArgs::default() };
    assert_eq!(
        runner_hook(&args, 25, number(1.0)),
        Action { show: false, report: false, stop: false }
    );
    assert_eq!(
        runner_hook(&args, 30, number(1.0)),
        Action { show: false, report: true, stop: true }
    );
    assert_eq!(runner_hook(&args, 30, None), Action { show: false, report: false, stop: false });
}

#[test]
fn a_run_stops_at_its_fitness() {
    let args = CommonArgs { until_fitness: number(2.0), ..CommonArgs::default() };
    assert!(runner_hook(&args, 20, number(2.0)).stop);
    assert!(!runner_hook(&args, 20, number(1.999)).stop);
    assert!(!runner_hook(&args, 21, number(2.0)).stop);
    assert!(!runner_hook(&args, 20, number(f64::NAN)).stop);
}

#[test]
fn a_report_interval_of_zero_reports_once() {
    let args = CommonArgs { report_every: 0, ..CommonArgs::default() };
    assert!(runner_hook(&args, 0, number(1.0)).report);
    assert!(!runner_hook(&args, 400, number(1.0)).report);
}

#[test]
fn co_evolution_counts_stale_generations() {
    let args = CommonArgs::default();
    let mut progress = Progress::new();
    assert_eq!(f64::from_bits(progress.last_best), f64::NEG_INFINITY);
    let expected = [(0.25, 0), (0.25, 1), (0.2, 2), (0.5, 0), (f64::NAN, 1), (0.5, 2)];
    for (i, (fitness, stale)) in expected.into_iter().enumerate() {
        progress.save_hook(&args, i, number(fitness));
        assert_eq!(progress.stale, stale);
    }
    assert_eq!(f64::from_bits(progress.last_best), 0.5);
    progress.save_hook(&args, 6, None);
    assert_eq!(progress.stale, 2);
}

#[test]
fn co_evolution_stops_at_once() {
    let args = CommonArgs { until_generation: 25, ..CommonArgs::default() };
    let mut progress = Progress::new();
    assert_eq!(
        progress.save_hook(&args, 24, number(1.0)),
        Action { show: false, report: false, stop: false }
    );
    assert_eq!(
        progress.save_hook(&args, 25, number(1.0)),
        Action { show: false, report: false, stop: true }
    );
    assert_eq!(
        progress.save_hook(&args, 20, number(1.0)),
        Action { show: false, report: true, stop: false }
    );
}

#[test]
fn co_evolution_takes_no_genome_for_zero() {
    let args = CommonArgs { until_fitness: number(0.0), ..CommonArgs::default() };
    assert!(Progress::new().save_hook(&args, 1, None).stop);
    let args = CommonArgs { until_fitness: number(0.1), ..CommonArgs::default() };
    assert!(!Progress::new().save_hook(&args, 1, None).stop);
    assert!(Progress::new().save_hook(&args, 1, number(0.1)).stop);
}
