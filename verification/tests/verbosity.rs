use grad::verbosity::{reported_in_full, reported_plainly, LevelFilter, Verbosity};

fn switches(silent: bool, quiet: bool, verbose: bool, debug: bool, trace: bool) -> Verbosity {
    Verbosity { silent, quiet, verbose, debug, trace }
}

const LEVELS: [LevelFilter; 6] = [
    LevelFilter::Off,
    LevelFilter::Error,
    LevelFilter::Warn,
    LevelFilter::Info,
    LevelFilter::Debug,
    LevelFilter::Trace,
];

#[test]
fn each_switch_chooses_its_level() {
    assert_eq!(switches(true, false, false, false, false).level(), LevelFilter::Off);
    assert_eq!(switches(false, true, false, false, false).level(), LevelFilter::Error);
    assert_eq!(switches(false, false, false, false, false).level(), LevelFilter::Warn);
    assert_eq!(switches(false, false, true, false, false).level(), LevelFilter::Info);
    assert_eq!(switches(false, false, false, true, false).level(), LevelFilter::Debug);
    assert_eq!(switches(false, false, false, false, true).level(), LevelFilter::Trace);
}

#[test]
fn the_quieter_switch_wins() {
    assert_eq!(switches(true, true, true, true, true).level(), LevelFilter::Off);
    assert_eq!(switches(false, true, true, true, true).level(), LevelFilter::Error);
    assert_eq!(switches(false, false, true, true, true).level(), LevelFilter::Info);
    assert_eq!(switches(false, false, false, true, true).level(), LevelFilter::Debug);
}

#[test]
fn level_comes_from_the_switches() {
    let chosen = switches(false, false, false, true, false);

    assert_eq!(LevelFilter::from(chosen), LevelFilter::Debug);
    assert_eq!(LevelFilter::from(&chosen), LevelFilter::Debug);
}

#[test]
fn levels_are_ranked_from_none_to_all() {
    for (rank, level) in LEVELS.iter().enumerate() {
        assert_eq!(level.place() as usize, rank);
    }
}

#[test]
fn plain_reports_stop_at_the_chosen_level() {
    for chosen in LEVELS {
        for event in LEVELS {
            let expected = event.place() <= chosen.place() && event != LevelFilter::Trace;

            assert_eq!(reported_plainly(chosen, event), expected, "{:?} {:?}", chosen, event);
        }
    }
    assert!(reported_plainly(LevelFilter::Warn, LevelFilter::Error));
    assert!(!reported_plainly(LevelFilter::Warn, LevelFilter::Info));
    assert!(!reported_plainly(LevelFilter::Trace, LevelFilter::Trace));
}

#[test]
fn full_reports_are_for_traces_only() {
    for chosen in LEVELS {
        for event in LEVELS {
            let expected = chosen == LevelFilter::Trace && (event == LevelFilter::Debug || event == LevelFilter::Trace);

            assert_eq!(reported_in_full(chosen, event), expected, "{:?} {:?}", chosen, event);
        }
    }
}
