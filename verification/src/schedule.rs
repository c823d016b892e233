//! The control of the gradient-descent loop: which iterations run, when the
//! early exaggeration of the joint probabilities ends, and when the
//! divergence is reported.
//!
//! The loop itself works on real matrices and lives with the caller. It asks a
//! `Schedule` for one `Step` after another and does what the step says.

use vstd::prelude::*;

verus! {

/// The factor by which the joint probabilities are scaled while early
/// exaggeration is active.
pub const EXAGGERATION_FACTOR: u8 = 4;

/// The iteration at whose start early exaggeration ends.
pub const EXAGGERATION_END: usize = 50;

/// The divergence is reported at every iteration that is a multiple of this.
pub const REPORT_PERIOD: usize = 100;

/// The factor on the joint probabilities before the first iteration.
pub open spec fn initial_scale(early_exaggeration: bool) -> nat {
    if early_exaggeration {
        EXAGGERATION_FACTOR as nat
    } else {
        1
    }
}

/// Whether iteration `t` begins by dividing the joint probabilities by
/// `EXAGGERATION_FACTOR`.
pub open spec fn restores_at(early_exaggeration: bool, t: nat) -> bool {
    early_exaggeration && t == EXAGGERATION_END
}

/// Whether iteration `t` ends by reporting the divergence.
pub open spec fn reports_at(t: nat) -> bool {
    t % (REPORT_PERIOD as nat) == 0
}

/// The factor on the joint probabilities during iteration `t`: the initial
/// one, divided as often as the iterations up to `t` restore.
pub open spec fn scale_through(early_exaggeration: bool, t: nat) -> nat
    decreases t,
{
    let before = if t == 0 {
        initial_scale(early_exaggeration)
    } else {
        scale_through(early_exaggeration, (t - 1) as nat)
    };
    if restores_at(early_exaggeration, t) {
        before / (EXAGGERATION_FACTOR as nat)
    } else {
        before
    }
}

/// The factor on the joint probabilities during iteration `t`, in closed form.
pub open spec fn scale_at(early_exaggeration: bool, t: nat) -> nat {
    if early_exaggeration && t < EXAGGERATION_END {
        EXAGGERATION_FACTOR as nat
    } else {
        1
    }
}

/// With early exaggeration the joint probabilities are scaled by
/// `EXAGGERATION_FACTOR` during every iteration before `EXAGGERATION_END` and
/// not at all from then on; without it they are never scaled.
pub proof fn lemma_exaggeration_window(early_exaggeration: bool, t: nat)
    ensures
        scale_through(early_exaggeration, t) == scale_at(early_exaggeration, t),
        early_exaggeration && t < EXAGGERATION_END ==> scale_through(early_exaggeration, t)
            == EXAGGERATION_FACTOR,
        early_exaggeration && t >= EXAGGERATION_END ==> scale_through(early_exaggeration, t) == 1,
        !early_exaggeration ==> scale_through(early_exaggeration, t) == 1,
    decreases t,
{
    if t > 0 {
        lemma_exaggeration_window(early_exaggeration, (t - 1) as nat);
    }
}

/// What one iteration of the loop has to do besides the gradient step.
#[derive(Clone, Copy, Debug, PartialEq, Eq, Structural)]
pub struct Step {
    /// The number of the iteration, from zero.
    pub iteration: usize,
    /// Divide the joint probabilities by `EXAGGERATION_FACTOR` first.
    pub restore: bool,
    /// The factor on the joint probabilities during the iteration.
    pub scale: u8,
    /// Report the divergence at the end.
    pub report: bool,
}

/// The step that iteration `t` takes.
pub open spec fn step_at(early_exaggeration: bool, t: nat) -> Step {
    Step {
        iteration: t as usize,
        restore: restores_at(early_exaggeration, t),
        scale: scale_at(early_exaggeration, t) as u8,
        report: reports_at(t),
    }
}

/// The iterations of one fit that are still to run.
#[derive(Clone, Copy, Debug)]
pub struct Schedule {
    early_exaggeration: bool,
    max_iter_num: usize,
    iteration: usize,
    scale: u8,
}

impl Schedule {
    /// Whether the fit was asked for early exaggeration.
    pub closed spec fn early_exaggeration(&self) -> bool {
        self.early_exaggeration
    }

    /// The number of iterations of the fit.
    pub closed spec fn max_iter_num(&self) -> nat {
        self.max_iter_num as nat
    }

    /// The number of the next iteration.
    pub closed spec fn iteration(&self) -> nat {
        self.iteration as nat
    }

    /// The factor that is on the joint probabilities now.
    pub closed spec fn scale(&self) -> nat {
        self.scale as nat
    }

    /// The next iteration is none after the last, and the factor is the one
    /// that the iteration before it left.
    pub closed spec fn wf(&self) -> bool {
        &&& self.iteration <= self.max_iter_num
        &&& self.scale == if self.iteration == 0 {
            initial_scale(self.early_exaggeration)
        } else {
            scale_at(self.early_exaggeration, (self.iteration - 1) as nat)
        }
    }

    /// The schedule of a fit of `max_iter_num` iterations. The joint
    /// probabilities are to be scaled by `current_scale()` before the first.
    pub fn new(early_exaggeration: bool, max_iter_num: usize) -> (schedule: Schedule)
        ensures
            schedule.wf(),
            schedule.early_exaggeration() == early_exaggeration,
            schedule.max_iter_num() == max_iter_num,
            schedule.iteration() == 0,
            schedule.scale() == initial_scale(early_exaggeration),
    {
        Schedule {
            early_exaggeration,
            max_iter_num,
            iteration: 0,
            scale: if early_exaggeration {
                EXAGGERATION_FACTOR
            } else {
                1
            },
        }
    }

    /// The factor that is on the joint probabilities now.
    pub fn current_scale(&self) -> (scale: u8)
        ensures
            scale == self.scale(),
    {
        self.scale
    }

    /// How many iterations are still to run.
    pub fn remaining(&self) -> (count: usize)
        requires
            self.wf(),
        ensures
            count == self.max_iter_num() - self.iteration(),
    {
        self.max_iter_num - self.iteration
    }

    /// Hands out the next iteration, or `None` when all have run.
    pub fn next_step(&mut self) -> (step: Option<Step>)
        requires
            old(self).wf(),
        ensures
            final(self).wf(),
            final(self).early_exaggeration() == old(self).early_exaggeration(),
            final(self).max_iter_num() == old(self).max_iter_num(),
            old(self).iteration() == old(self).max_iter_num() ==> step is None && *final(self)
                == *old(self),
            old(self).iteration() < old(self).max_iter_num() ==> step == Some(
                step_at(old(self).early_exaggeration(), old(self).iteration()),
            ) && final(self).iteration() == old(self).iteration() + 1 && final(self).scale()
                == scale_through(old(self).early_exaggeration(), old(self).iteration()),
    {
        if self.iteration >= self.max_iter_num {
            return None;
        }
        let t = self.iteration;
        proof {
            lemma_exaggeration_window(self.early_exaggeration, t as nat);
            if t > 0 {
                lemma_exaggeration_window(self.early_exaggeration, (t - 1) as nat);
            }
        }
        let restore = self.early_exaggeration && t == EXAGGERATION_END;
        if restore {
            self.scale = self.scale / EXAGGERATION_FACTOR;
        }
        self.iteration = t + 1;
        Some(Step { iteration: t, restore, scale: self.scale, report: t % REPORT_PERIOD == 0 })
    }
}

} // verus!
