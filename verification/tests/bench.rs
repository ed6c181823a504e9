use rio::cli::Args;
use rio::cli::CliError;
use rio::cli::RustArgs;
use rio::cli::Target;
use rio::monitor::estimate_real_count;
use rio::monitor::CountAndTime;
use rio::monitor::Counters;
use rio::monitor::Readings;

fn reading(count: u64, time_enabled: u64, time_running: u64) -> CountAndTime {
    CountAndTime { count, time_enabled, time_running }
}

#[test]
fn a_counter_that_ran_all_the_time_is_exact() {
    assert_eq!(estimate_real_count(reading(1234, 500, 500)), 1234);
    assert_eq!(estimate_real_count(reading(0, 500, 500)), 0);
    assert_eq!(estimate_real_count(reading(u64::MAX, 7, 7)), u64::MAX);
}

#[test]
fn a_counter_that_ran_part_of_the_time_is_scaled() {
    assert_eq!(estimate_real_count(reading(1000, 3, 2)), 1500);
    assert_eq!(estimate_real_count(reading(10, 10, 3)), 33);
    assert_eq!(estimate_real_count(reading(7, 0, 3)), 0);
}

#[test]
fn an_estimate_that_is_too_large_keeps_its_low_bits() {
    assert_eq!(estimate_real_count(reading(u64::MAX, u64::MAX, 1)), 1);
    assert_eq!(estimate_real_count(reading(u64::MAX, 4, 2)), u64::MAX - 1);
}

#[test]
fn all_counters_are_estimated() {
    let readings = Readings {
        cycles: reading(100, 2, 1),
        ref_cycles: reading(200, 2, 1),
        instructions: reading(300, 3, 1),
        task_clock: reading(400, 1, 1),
        cache_misses: reading(5, 4, 2),
        cache_references: reading(60, 3, 2),
    };
    assert_eq!(
        Counters::estimate(readings, 999),
        Counters {
            cycles: 200,
            ref_cycles: 400,
            instructions: 900,
            task_clock: 400,
            wall_clock: 999,
            cache_misses: 10,
            cache_references: 90,
        }
    );
}

fn args(c: bool, rust: bool) -> Args {
    Args {
        path: String::from("./target"),
        args: String::from(" "),
        verbose: false,
        c,
        rust,
        json: false,
    }
}

#[test]
fn the_interface_flags_select_the_target() {
    assert_eq!(args(false, false).target(), Ok(Target::Executable));
    assert_eq!(args(true, false).target(), Ok(Target::SharedC));
    assert_eq!(args(false, true).target(), Ok(Target::SharedRust));
    assert_eq!(args(true, true).target(), Err(CliError::BothInterfaces));
}

fn words_of(input: &str) -> Vec<String> {
    RustArgs::new(input).ok().unwrap().args().clone()
}

#[test]
fn the_program_name_comes_first() {
    assert_eq!(words_of(" "), vec!["bench_target"]);
    assert_eq!(words_of(""), vec!["bench_target"]);
    assert_eq!(words_of("-n 4 file.txt"), vec!["bench_target", "-n", "4", "file.txt"]);
    assert_eq!(RustArgs::new("-n 4").ok().unwrap().argc(), 3);
}

#[test]
fn arguments_are_split_as_a_shell_would() {
    assert_eq!(words_of("here are \"two words\""), vec!["bench_target", "here", "are", "two words"]);
    assert_eq!(words_of("a b\\ c 'd e'"), vec!["bench_target", "a", "b c", "d e"]);
}

#[test]
fn an_open_quote_is_an_error() {
    assert_eq!(RustArgs::new("a \"b c").err(), Some(CliError::MismatchedQuotes));
    assert_eq!(RustArgs::new("a 'b c").err(), Some(CliError::MismatchedQuotes));
}

#[test]
fn arguments_from_words() {
    let argv = RustArgs::from_words(vec![String::from("x"), String::from("y z")]);
    assert_eq!(argv.args(), &vec!["bench_target", "x", "y z"]);
    assert_eq!(RustArgs::from_words(Vec::new()).args(), &vec!["bench_target"]);
}
