use readbench::driver::Driver;
use readbench::plan::{BenchConfig, Step, Strategy, Trial, BUF_SIZE, FILE_COUNT, NUM_REPEATS};

fn run_all(config: BenchConfig) -> Vec<Step> {
    let mut driver = Driver::new(config);
    let mut steps = Vec::new();
    loop {
        let step = driver.next();
        steps.push(step);
        if step == Step::Finished {
            return steps;
        }
    }
}

#[test]
fn standard_config_values() {
    let c = BenchConfig::standard();
    assert_eq!(c.repeats, NUM_REPEATS);
    assert_eq!(c.buffer_size, BUF_SIZE);
    assert_eq!(c.stride, 512);
    assert_eq!(c.file_count, FILE_COUNT);
    assert!(c.sweep_parallel);
    assert!(c.skip_async_mmap_sequential);
    assert!(c.is_valid());
    assert_eq!(c.trial_count(), 160);
    assert_eq!(BenchConfig::implicit_parallel().trial_count(), 80);
}

#[test]
fn invalid_configs_are_refused() {
    let mut c = BenchConfig::standard();
    c.stride = 0;
    assert!(!c.is_valid());
    let mut c = BenchConfig::standard();
    c.buffer_size = 0;
    assert!(!c.is_valid());
    let mut c = BenchConfig::standard();
    c.repeats = usize::MAX;
    assert!(!c.is_valid());
    let mut c = BenchConfig::standard();
    c.buffer_size = usize::MAX;
    assert!(!c.is_valid());
    let mut c = BenchConfig::standard();
    c.stride = usize::MAX / 2 + 1;
    c.buffer_size = 1;
    assert!(!c.is_valid());
}

#[test]
fn trial_order_follows_nesting() {
    let c = BenchConfig::standard();
    let first = c.trial_at(0);
    assert_eq!(
        first,
        Trial { use_async: true, use_mmap: true, use_parallel: true, cold_cache: true, repeat: 0 }
    );
    let t = c.trial_at(1);
    assert!(t.use_async && t.use_mmap && t.use_parallel && !t.cold_cache);
    let t = c.trial_at(15);
    assert!(!t.use_async && !t.use_mmap && !t.use_parallel && !t.cold_cache);
    assert_eq!(t.repeat, 0);
    let t = c.trial_at(37);
    assert_eq!(t.repeat, 2);
    assert!(t.use_async && !t.use_mmap && t.use_parallel && !t.cold_cache);
    let b = BenchConfig::implicit_parallel();
    let t = b.trial_at(6);
    assert!(!t.use_async && !t.use_mmap && t.use_parallel && t.cold_cache);
    assert_eq!(b.trial_at(9).repeat, 1);
}

#[test]
fn strategies_of_each_combination() {
    let c = BenchConfig::standard();
    let t = |a, m, p| Trial { use_async: a, use_mmap: m, use_parallel: p, cold_cache: false, repeat: 0 };
    assert_eq!(c.strategy_for(&t(false, false, false)), Some(Strategy::SequentialSyncFile));
    assert_eq!(c.strategy_for(&t(false, false, true)), Some(Strategy::SyncFile));
    assert_eq!(c.strategy_for(&t(false, true, false)), Some(Strategy::SequentialSyncMmap));
    assert_eq!(c.strategy_for(&t(false, true, true)), Some(Strategy::SyncMmap));
    assert_eq!(c.strategy_for(&t(true, false, false)), Some(Strategy::SequentialAsyncFile));
    assert_eq!(c.strategy_for(&t(true, false, true)), Some(Strategy::AsyncFile));
    assert_eq!(c.strategy_for(&t(true, true, false)), None);
    assert_eq!(c.strategy_for(&t(true, true, true)), Some(Strategy::AsyncMmap));
}

#[test]
fn async_mmap_sequential_falls_back_when_not_skipped() {
    let mut c = BenchConfig::standard();
    c.skip_async_mmap_sequential = false;
    let t = Trial { use_async: true, use_mmap: true, use_parallel: false, cold_cache: true, repeat: 3 };
    assert_eq!(c.strategy_for(&t), Some(Strategy::AsyncMmap));
}

#[test]
fn cold_trials_flush_first_and_warm_never() {
    let steps = run_all(BenchConfig::standard());
    let mut previous = Step::Finished;
    let mut runs = 0;
    let mut flushes = 0;
    for &step in &steps {
        match step {
            Step::Run(trial, _) => {
                runs += 1;
                assert_eq!(trial.cold_cache, previous == Step::FlushCache);
            }
            Step::FlushCache => flushes += 1,
            _ => {}
        }
        previous = step;
    }
    assert_eq!(runs, 140);
    assert_eq!(flushes, 70);
}

#[test]
fn skipped_combination_emits_no_run() {
    let steps = run_all(BenchConfig::standard());
    let skips: Vec<Trial> = steps
        .iter()
        .filter_map(|s| match s {
            Step::Skip(t) => Some(*t),
            _ => None,
        })
        .collect();
    assert_eq!(skips.len(), 20);
    for t in &skips {
        assert!(t.use_async && t.use_mmap && !t.use_parallel);
    }
    for s in &steps {
        if let Step::Run(t, _) = s {
            assert!(!(t.use_async && t.use_mmap && !t.use_parallel));
        }
    }
}

#[test]
fn every_runnable_combination_runs_once_per_repeat() {
    let steps = run_all(BenchConfig::standard());
    for repeat in 0..NUM_REPEATS {
        let runs: Vec<Trial> = steps
            .iter()
            .filter_map(|s| match s {
                Step::Run(t, _) if t.repeat == repeat => Some(*t),
                _ => None,
            })
            .collect();
        assert_eq!(runs.len(), 14);
        for i in 0..runs.len() {
            for j in 0..i {
                assert_ne!(runs[i], runs[j]);
            }
        }
    }
    assert_eq!(steps.last(), Some(&Step::Finished));
}

#[test]
fn implicit_parallel_runs_every_trial() {
    let steps = run_all(BenchConfig::implicit_parallel());
    let runs = steps.iter().filter(|s| matches!(s, Step::Run(..))).count();
    let skips = steps.iter().filter(|s| matches!(s, Step::Skip(_))).count();
    assert_eq!(runs, 80);
    assert_eq!(skips, 0);
}

#[test]
fn finished_driver_stays_finished() {
    let mut c = BenchConfig::standard();
    c.repeats = 0;
    let mut d = Driver::new(c);
    assert_eq!(d.next(), Step::Finished);
    assert_eq!(d.next(), Step::Finished);
}
