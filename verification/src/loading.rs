//! Before the game: what to do while pictures and sounds are read. The
//! reading is not this library's work; it is told how far the reading is
//! and says what is to be done.

use vstd::prelude::*;

verus! {

/// The splash screen stays for this many microseconds after it is shown.
pub const SPLASH_TIME: u64 = 4000000;

/// How far the reading of a set of assets is.
#[derive(Clone, Copy, Debug, PartialEq, Eq, Structural)]
pub struct Progress {
    pub num_finished: usize,
    pub num_assets: usize,
    pub complete: bool,
}

/// What is being waited for.
#[derive(Clone, Copy, Debug, PartialEq, Eq, Structural)]
pub enum LoadingPhase {
    /// The splash screen is read.
    Splash,
    /// The splash screen is shown and the game's assets are read.
    Assets,
    /// All is read; the splash screen stays until its time is over.
    Wait,
}

/// What is to be done after a look at the progress.
#[derive(Clone, Copy, Debug, PartialEq, Eq, Structural)]
pub enum LoadingStep {
    /// Nothing.
    Idle,
    /// The splash screen is read: show it, and start reading the game's
    /// assets.
    ShowSplash,
    /// More assets are read than at the last look: so many hundredths of a
    /// percent of them.
    Report { hundredths: u64 },
    /// All the game's assets are read.
    Loaded,
    /// The splash screen has had its time: take it away and start the game.
    Start,
}

/// The state of the loading.
#[derive(Clone, Copy, Debug, PartialEq, Eq, Structural)]
pub struct Loading {
    pub phase: LoadingPhase,
    pub items_done_last: Option<usize>,
    pub counter_end: Option<u64>,
}

/// The part `finished` of `assets`, in hundredths of a percent, rounded
/// down; where there are no assets, all of them are read.
pub open spec fn share(finished: usize, assets: usize) -> u64 {
    if assets == 0 || finished >= assets {
        10000
    } else {
        (finished * 10000 / assets as int) as u64
    }
}

impl Loading {
    /// What a look at `progress`, taken at the time `now`, leads to: the
    /// step to take, and the state after it.
    pub open spec fn looked(self, progress: Progress, now: u64) -> (LoadingStep, Loading) {
        match self.phase {
            LoadingPhase::Splash => if progress.complete {
                (
                    LoadingStep::ShowSplash,
                    Loading {
                        phase: LoadingPhase::Assets,
                        counter_end: Some(
                            if now <= u64::MAX - SPLASH_TIME {
                                (now + SPLASH_TIME) as u64
                            } else {
                                u64::MAX
                            },
                        ),
                        ..self
                    },
                )
            } else {
                (LoadingStep::Idle, self)
            },
            LoadingPhase::Assets => if progress.complete {
                (LoadingStep::Loaded, Loading { phase: LoadingPhase::Wait, ..self })
            } else if self.items_done_last != Some(progress.num_finished) {
                (
                    LoadingStep::Report {
                        hundredths: share(progress.num_finished, progress.num_assets),
                    },
                    Loading { items_done_last: Some(progress.num_finished), ..self },
                )
            } else {
                (LoadingStep::Idle, self)
            },
            LoadingPhase::Wait => if self.counter_end matches Some(end) && end < now {
                (LoadingStep::Start, self)
            } else {
                (LoadingStep::Idle, self)
            },
        }
    }

    /// The loading at its start: the splash screen is to be read.
    pub fn new() -> (l: Loading)
        ensures
            l == (Loading { phase: LoadingPhase::Splash, items_done_last: None, counter_end: None }),
    {
        Loading { phase: LoadingPhase::Splash, items_done_last: None, counter_end: None }
    }

    /// Takes a look at the progress of what is being read, at the time
    /// `now` in microseconds, and says what is to be done.
    pub fn update(&mut self, progress: Progress, now: u64) -> (step: LoadingStep)
        ensures
            (step, *final(self)) == old(self).looked(progress, now),
    {
        match self.phase {
            LoadingPhase::Splash => {
                if progress.complete {
                    self.phase = LoadingPhase::Assets;
                    self.counter_end = Some(now.saturating_add(SPLASH_TIME));
                    LoadingStep::ShowSplash
                } else {
                    LoadingStep::Idle
                }
            },
            LoadingPhase::Assets => {
                if progress.complete {
                    self.phase = LoadingPhase::Wait;
                    LoadingStep::Loaded
                } else {
                    let seen = match self.items_done_last {
                        Some(l) => l == progress.num_finished,
                        None => false,
                    };
                    if seen {
                        LoadingStep::Idle
                    } else {
                        self.items_done_last = Some(progress.num_finished);
                        LoadingStep::Report {
                            hundredths: completion(progress.num_finished, progress.num_assets),
                        }
                    }
                }
            },
            LoadingPhase::Wait => {
                match self.counter_end {
                    Some(end) => if end < now {
                        LoadingStep::Start
                    } else {
                        LoadingStep::Idle
                    },
                    None => LoadingStep::Idle,
                }
            },
        }
    }
}

/// The part `finished` of `assets`, in hundredths of a percent.
pub fn completion(finished: usize, assets: usize) -> (r: u64)
    ensures
        r == share(finished, assets),
        r <= 10000,
{
    if assets == 0 || finished >= assets {
        10000
    } else {
        let f: u128 = finished as u128;
        let a: u128 = assets as u128;
        assert(f * 10000 / (a as int) < 10000) by (nonlinear_arith)
            requires
                0 <= f < a,
        ;
        (f * 10000 / a) as u64
    }
}

} // verus!
