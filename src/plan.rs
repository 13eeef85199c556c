//! The benchmark's parameter matrix and the driver that walks it: which
//! trials run, in which order, with which execution strategy, and when the
//! page cache is purged.

use vstd::prelude::*;

verus! {

/// Bytes in the buffer that each read call fills.
pub const BUF_SIZE: usize = 65536;

/// Bytes in the buffer of the configuration without a parallel axis.
pub const LARGE_BUF_SIZE: usize = 262144;

/// Times the whole matrix is run.
pub const NUM_REPEATS: usize = 10;

/// Files in the set, named `file.1` onwards.
pub const FILE_COUNT: usize = 8;

/// What a benchmark run sweeps and with which constants.
#[derive(Clone, Copy, Debug, PartialEq, Eq, Structural)]
pub struct BenchConfig {
    /// How many times the whole matrix is run.
    pub repeats: usize,
    /// Capacity of the buffer that each read call fills.
    pub buffer_size: usize,
    /// Distance between two sampled bytes.
    pub stride: usize,
    /// Number of files in the set.
    pub file_count: usize,
    /// Whether sequential and parallel execution are both swept; without it
    /// every trial runs in parallel and the CSV has no parallel column.
    pub sweep_parallel: bool,
    /// Whether an asynchronous, mapped, sequential trial is left out; without
    /// it such a trial runs as the asynchronous mapped one.
    pub skip_async_mmap_sequential: bool,
}

/// The flags of one trial and the repeat it belongs to.
#[derive(Clone, Copy, Debug, PartialEq, Eq, Structural)]
pub struct Trial {
    pub use_async: bool,
    pub use_mmap: bool,
    pub use_parallel: bool,
    pub cold_cache: bool,
    pub repeat: usize,
}

/// How the files of one trial are touched.
#[derive(Clone, Copy, Debug, PartialEq, Eq, Structural)]
pub enum Strategy {
    /// Each file read into a buffer, one after another.
    SequentialSyncFile,
    /// Each file read into a buffer on a thread of its own.
    SyncFile,
    /// Each mapped file touched, one after another.
    SequentialSyncMmap,
    /// Each mapped file touched on a thread of its own.
    SyncMmap,
    /// Each file read asynchronously, one after another.
    SequentialAsyncFile,
    /// All files read asynchronously as concurrent tasks, joined.
    AsyncFile,
    /// All mapped files touched as concurrent tasks, joined.
    AsyncMmap,
}

/// What the caller does next.
#[derive(Clone, Copy, Debug, PartialEq, Eq, Structural)]
pub enum Step {
    /// Flush and purge the page cache; the trial that follows is cold.
    FlushCache,
    /// Open the files, start the clock, run the strategy, stop the clock and
    /// emit one row for the trial.
    Run(Trial, Strategy),
    /// The trial is not run and emits no row.
    Skip(Trial),
    /// Every trial has been handled.
    Finished,
}

impl BenchConfig {
    /// Leaf combinations of flags in one repeat.
    pub open spec fn combos(&self) -> int {
        if self.sweep_parallel {
            16
        } else {
            8
        }
    }

    /// Trials in the whole run, skipped ones included.
    pub open spec fn trials(&self) -> int {
        self.repeats * self.combos()
    }

    pub open spec fn wf(&self) -> bool {
        &&& 0 < self.stride <= isize::MAX
        &&& self.buffer_size > 0
        &&& self.buffer_size + self.stride <= usize::MAX
        &&& self.trials() <= usize::MAX
    }

    /// The configuration that sweeps every axis, parallel included, and
    /// skips the asynchronous, mapped, sequential trial.
    pub fn standard() -> (r: BenchConfig)
        ensures
            r == (BenchConfig {
                repeats: NUM_REPEATS,
                buffer_size: BUF_SIZE,
                stride: 512,
                file_count: FILE_COUNT,
                sweep_parallel: true,
                skip_async_mmap_sequential: true,
            }),
            r.wf(),
    {
        BenchConfig {
            repeats: NUM_REPEATS,
            buffer_size: BUF_SIZE,
            stride: 512,
            file_count: FILE_COUNT,
            sweep_parallel: true,
            skip_async_mmap_sequential: true,
        }
    }

    /// The configuration in which every trial runs in parallel, with the
    /// larger buffer.
    pub fn implicit_parallel() -> (r: BenchConfig)
        ensures
            r == (BenchConfig {
                repeats: NUM_REPEATS,
                buffer_size: LARGE_BUF_SIZE,
                stride: 512,
                file_count: FILE_COUNT,
                sweep_parallel: false,
                skip_async_mmap_sequential: false,
            }),
            r.wf(),
    {
        BenchConfig {
            repeats: NUM_REPEATS,
            buffer_size: LARGE_BUF_SIZE,
            stride: 512,
            file_count: FILE_COUNT,
            sweep_parallel: false,
            skip_async_mmap_sequential: false,
        }
    }

    /// Whether the configuration can be run: a positive stride no larger than
    /// the largest slice, a positive buffer,
    /// and sizes and a trial count that fit in `usize`.
    pub fn is_valid(&self) -> (r: bool)
        ensures
            r == self.wf(),
    {
        let combos: usize = if self.sweep_parallel {
            16
        } else {
            8
        };
        self.stride > 0 && self.stride <= isize::MAX as usize && self.buffer_size > 0
            && self.buffer_size <= usize::MAX - self.stride
            && self.repeats.checked_mul(combos).is_some()
    }

    /// Trials in the whole run, skipped ones included.
    pub fn trial_count(&self) -> (r: usize)
        requires
            self.wf(),
        ensures
            r == self.trials(),
    {
        if self.sweep_parallel {
            self.repeats * 16
        } else {
            self.repeats * 8
        }
    }

    /// The trial at position `i` of the run.
    pub fn trial_at(&self, i: usize) -> (t: Trial)
        requires
            self.wf(),
            i < self.trials(),
        ensures
            t == trial_at(*self, i as int),
    {
        if self.sweep_parallel {
            let r = i % 16;
            Trial {
                use_async: r / 8 == 0,
                use_mmap: (r / 4) % 2 == 0,
                use_parallel: (r / 2) % 2 == 0,
                cold_cache: r % 2 == 0,
                repeat: i / 16,
            }
        } else {
            let r = i % 8;
            Trial {
                use_async: r / 4 == 0,
                use_mmap: (r / 2) % 2 == 0,
                use_parallel: true,
                cold_cache: r % 2 == 0,
                repeat: i / 8,
            }
        }
    }

    /// The strategy that runs `t`, or `None` where the trial is skipped.
    pub fn strategy_for(&self, t: &Trial) -> (r: Option<Strategy>)
        ensures
            r == strategy_for(*self, *t),
            t.use_async && t.use_mmap && !t.use_parallel ==> (r is None
                <==> self.skip_async_mmap_sequential),
            t.use_async && t.use_mmap && !t.use_parallel && r is Some ==> r == strategy_for(
                *self,
                Trial { use_parallel: true, ..*t },
            ),
    {
        match (t.use_async, t.use_mmap, t.use_parallel) {
            (false, false, false) => Some(Strategy::SequentialSyncFile),
            (false, false, true) => Some(Strategy::SyncFile),
            (false, true, false) => Some(Strategy::SequentialSyncMmap),
            (false, true, true) => Some(Strategy::SyncMmap),
            (true, false, false) => Some(Strategy::SequentialAsyncFile),
            (true, false, true) => Some(Strategy::AsyncFile),
            (true, true, false) => if self.skip_async_mmap_sequential {
                None
            } else {
                Some(Strategy::AsyncMmap)
            },
            (true, true, true) => Some(Strategy::AsyncMmap),
        }
    }
}

/// The trial at position `i`: repeats outermost, then the asynchronous,
/// mapped, parallel and cold flags, each `true` before `false`. Without a
/// parallel axis every trial is parallel.
pub open spec fn trial_at(cfg: BenchConfig, i: int) -> Trial {
    let r = i % cfg.combos();
    if cfg.sweep_parallel {
        Trial {
            use_async: r / 8 == 0,
            use_mmap: (r / 4) % 2 == 0,
            use_parallel: (r / 2) % 2 == 0,
            cold_cache: r % 2 == 0,
            repeat: (i / 16) as usize,
        }
    } else {
        Trial {
            use_async: r / 4 == 0,
            use_mmap: (r / 2) % 2 == 0,
            use_parallel: true,
            cold_cache: r % 2 == 0,
            repeat: (i / 8) as usize,
        }
    }
}

/// The strategy of each combination of flags; the asynchronous, mapped,
/// sequential one is skipped or run as the asynchronous mapped one.
pub open spec fn strategy_for(cfg: BenchConfig, t: Trial) -> Option<Strategy> {
    if !t.use_async && !t.use_mmap {
        Some(if t.use_parallel { Strategy::SyncFile } else { Strategy::SequentialSyncFile })
    } else if !t.use_async && t.use_mmap {
        Some(if t.use_parallel { Strategy::SyncMmap } else { Strategy::SequentialSyncMmap })
    } else if t.use_async && !t.use_mmap {
        Some(if t.use_parallel { Strategy::AsyncFile } else { Strategy::SequentialAsyncFile })
    } else if t.use_parallel || !cfg.skip_async_mmap_sequential {
        Some(Strategy::AsyncMmap)
    } else {
        None
    }
}

} // verus!
