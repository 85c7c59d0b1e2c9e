//! Run configuration, checked before any tile is rendered, and the summary
//! of a run once every tile job has finished.
use vstd::prelude::*;
use crate::pixels::Resolution;

verus! {

/// Pixel width of each tile in the standard atlas.
pub const STANDARD_WIDTH: u32 = 8192;

/// Pixel height of each tile in the standard atlas.
pub const STANDARD_HEIGHT: u32 = 8192;

/// Iteration limit of the standard atlas.
pub const STANDARD_ESCAPE_LIMIT: u16 = 256;

/// Tiles per side of the standard atlas.
pub const STANDARD_GRID_SIZE: u32 = 128;

/// Smallest spread of grey levels, exclusive, that a tile of the standard
/// atlas needs to be kept.
pub const STANDARD_THRESHOLD: u8 = 20;

/// Why a configuration was refused.
#[derive(Clone, Copy, Debug, PartialEq, Eq, Structural)]
pub enum ConfigError {
    /// The tile width or height is zero.
    ZeroResolution,
    /// A tile has more pixels than a buffer can hold on this machine.
    ResolutionTooLarge,
    /// The iteration limit is zero.
    ZeroEscapeLimit,
    /// The grid has no tiles.
    ZeroGridSize,
}

/// The integer settings of an atlas run.
#[derive(Clone, Copy, Debug, PartialEq, Eq, Structural)]
pub struct Config {
    pub resolution: Resolution,
    pub escape_limit: u16,
    pub grid_size: u32,
    pub threshold: u8,
}

/// The error that `Config::new` gives for these settings, if any; the
/// settings are checked in the order of the arguments.
pub open spec fn config_error(
    resolution: Resolution,
    escape_limit: u16,
    grid_size: u32,
) -> Option<ConfigError> {
    if !resolution.wf() {
        Some(ConfigError::ZeroResolution)
    } else if resolution.pixel_count() > usize::MAX {
        Some(ConfigError::ResolutionTooLarge)
    } else if escape_limit == 0 {
        Some(ConfigError::ZeroEscapeLimit)
    } else if grid_size == 0 {
        Some(ConfigError::ZeroGridSize)
    } else {
        None
    }
}

impl Config {
    /// Settings that a run can go ahead with.
    pub open spec fn wf(&self) -> bool {
        config_error(self.resolution, self.escape_limit, self.grid_size) is None
    }

    /// Checks the settings and builds the configuration.
    pub fn new(resolution: Resolution, escape_limit: u16, grid_size: u32, threshold: u8) -> (r:
        Result<Config, ConfigError>)
        ensures
            config_error(resolution, escape_limit, grid_size) matches Some(e) ==> r == Err::<
                Config,
                ConfigError,
            >(e),
            config_error(resolution, escape_limit, grid_size) is None ==> r == Ok::<
                Config,
                ConfigError,
            >(Config { resolution, escape_limit, grid_size, threshold }),
            r matches Ok(c) ==> c.wf(),
    {
        if resolution.width == 0 || resolution.height == 0 {
            return Err(ConfigError::ZeroResolution);
        }
        assert(resolution.width as nat * resolution.height as nat <= u64::MAX) by (nonlinear_arith)
            requires
                resolution.width <= u32::MAX,
                resolution.height <= u32::MAX,
        ;
        let count: u64 = resolution.width as u64 * resolution.height as u64;
        if count > usize::MAX as u64 {
            return Err(ConfigError::ResolutionTooLarge);
        }
        if escape_limit == 0 {
            return Err(ConfigError::ZeroEscapeLimit);
        }
        if grid_size == 0 {
            return Err(ConfigError::ZeroGridSize);
        }
        Ok(Config { resolution, escape_limit, grid_size, threshold })
    }
}

/// How one tile job ended.
#[derive(Clone, Copy, Debug, PartialEq, Eq, Structural)]
pub enum TileOutcome {
    /// The tile was worth keeping and the image sink stored it.
    Persisted,
    /// The tile's spread of grey levels was too narrow to keep it.
    Skipped,
    /// The tile was worth keeping but the image sink failed.
    Failed,
}

/// How many entries of `s` are `o`.
pub open spec fn count_of(s: Seq<TileOutcome>, o: TileOutcome) -> nat
    decreases s.len(),
{
    if s.len() == 0 {
        0
    } else {
        count_of(s.drop_last(), o) + if s.last() == o {
            1nat
        } else {
            0nat
        }
    }
}

/// The tally of a finished run.
#[derive(Clone, Copy, Debug, PartialEq, Eq, Structural)]
pub struct RunSummary {
    pub persisted: usize,
    pub skipped: usize,
    pub failed: usize,
}

/// Tallies the outcomes of all tile jobs.
pub fn summarize(outcomes: &Vec<TileOutcome>) -> (r: RunSummary)
    ensures
        r.persisted == count_of(outcomes@, TileOutcome::Persisted),
        r.skipped == count_of(outcomes@, TileOutcome::Skipped),
        r.failed == count_of(outcomes@, TileOutcome::Failed),
{
    let mut summary = RunSummary { persisted: 0, skipped: 0, failed: 0 };
    let mut i: usize = 0;
    while i < outcomes.len()
        invariant
            i <= outcomes.len(),
            summary.persisted == count_of(outcomes@.subrange(0, i as int), TileOutcome::Persisted),
            summary.skipped == count_of(outcomes@.subrange(0, i as int), TileOutcome::Skipped),
            summary.failed == count_of(outcomes@.subrange(0, i as int), TileOutcome::Failed),
            summary.persisted + summary.skipped + summary.failed == i,
        decreases outcomes.len() - i,
    {
        assert(outcomes@.subrange(0, i as int + 1).drop_last() == outcomes@.subrange(0, i as int));
        match outcomes[i] {
            TileOutcome::Persisted => summary.persisted = summary.persisted + 1,
            TileOutcome::Skipped => summary.skipped = summary.skipped + 1,
            TileOutcome::Failed => summary.failed = summary.failed + 1,
        }
        i = i + 1;
    }
    assert(outcomes@.subrange(0, outcomes.len() as int) == outcomes@);
    summary
}

impl RunSummary {
    /// The process exit status: 0 when no tile failed, 1 otherwise.
    pub fn exit_status(&self) -> (r: i32)
        ensures
            r == (if self.failed == 0 {
                0i32
            } else {
                1i32
            }),
    {
        if self.failed == 0 {
            0
        } else {
            1
        }
    }
}

} // verus!
