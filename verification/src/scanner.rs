//! The scanner state machine: walks a monotone identifier sequence in one
//! direction, feeding each fetch outcome through the backoff policy.
//!
//! The scanner itself never sleeps and never touches the network: the caller
//! fetches the current identifier, hands the outcome to [`Scanner::on_outcome`],
//! performs the pause the returned action asks for, and calls
//! [`Scanner::resume`] after a stall. The pure model of one such
//! fetch-stall-resume cycle is [`spec_step`], and [`spec_run`] folds it over a
//! whole sequence of outcomes; the laws at the bottom are stated over that
//! model.

use vstd::prelude::*;
use vstd::pervasive::unreached;
use crate::backoff::{decide, BackoffDecision, PACE_MS, STALL_MS};
use crate::outcome::FetchOutcome;
use crate::record::{Record, RecordView};

verus! {

/// Which way the scan walks the identifier space.
#[derive(PartialEq, Eq, Structural, Clone, Copy, Debug)]
pub enum ScanDirection {
    /// Ascending from the start, with no upper bound short of the
    /// identifier type itself.
    Forward,
    /// Descending from the start toward zero, terminating after zero.
    Backward,
}

/// Where the scanner stands in its cycle.
#[derive(PartialEq, Eq, Structural, Clone, Copy, Debug)]
pub enum ScanPhase {
    /// Ready to fetch the current identifier.
    Running,
    /// Waiting out a `NotFound` stall; the position is unchanged.
    Stalled,
    /// The scan is over: the backward bound, or the top of the identifier
    /// space, was crossed.
    Finished,
}

/// One scan task's entire state.
#[derive(PartialEq, Eq, Structural, Clone, Copy, Debug)]
pub struct Scanner {
    pub phase: ScanPhase,
    pub pos: u32,
    pub dir: ScanDirection,
}

/// What the caller must do after handing one outcome to the scanner.
#[derive(Debug, PartialEq)]
pub enum ScanAction {
    /// Persist this record, then pause the given milliseconds before the
    /// next fetch.
    Persist(Record, u64),
    /// Log the failure detail, persist nothing, pause the given
    /// milliseconds, then fetch the next identifier.
    Skip(Vec<char>, u64),
    /// Pause the given milliseconds, call [`Scanner::resume`], and fetch the
    /// same identifier again.
    Stall(u64),
}

/// The position after one advance: one step in the scan's direction, or
/// `Finished` when the step would cross the scan's bound.
pub open spec fn spec_advance(s: Scanner) -> Scanner {
    match s.dir {
        ScanDirection::Forward => if s.pos == u32::MAX {
            Scanner { phase: ScanPhase::Finished, ..s }
        } else {
            Scanner { phase: ScanPhase::Running, pos: (s.pos + 1) as u32, ..s }
        },
        ScanDirection::Backward => if s.pos == 0 {
            Scanner { phase: ScanPhase::Finished, ..s }
        } else {
            Scanner { phase: ScanPhase::Running, pos: (s.pos - 1) as u32, ..s }
        },
    }
}

/// Pure model of one full cycle at the current position: the state after the
/// cycle, and the identifier and record persisted by it, if any. A `NotFound`
/// cycle (stall, then resume) leaves the state exactly as it was.
pub open spec fn spec_step(s: Scanner, outcome: FetchOutcome) -> (Scanner, Option<(u32, RecordView)>) {
    if s.phase != ScanPhase::Running {
        (s, Option::None)
    } else {
        match outcome {
            FetchOutcome::Found(r) => (spec_advance(s), Option::Some((s.pos, r@))),
            FetchOutcome::NotFound => (s, Option::None),
            FetchOutcome::TransportError(_) => (spec_advance(s), Option::None),
        }
    }
}

/// [`spec_step`] folded over a sequence of outcomes; the second component is
/// the sequence of (identifier, record) pairs persisted along the way.
pub open spec fn spec_run(s: Scanner, outcomes: Seq<FetchOutcome>) -> (Scanner, Seq<(u32, RecordView)>)
    decreases outcomes.len(),
{
    if outcomes.len() == 0 {
        (s, Seq::empty())
    } else {
        let (s1, persisted) = spec_step(s, outcomes[0]);
        let (s2, rest) = spec_run(s1, outcomes.drop_first());
        match persisted {
            Option::Some(p) => (s2, seq![p] + rest),
            Option::None => (s2, rest),
        }
    }
}

impl Scanner {
    /// A forward scan starting at `start`: ascending, unbounded by design
    /// (it ends only where the identifier type itself does).
    pub fn forward(start: u32) -> (s: Scanner)
        ensures
            s == (Scanner { phase: ScanPhase::Running, pos: start, dir: ScanDirection::Forward }),
    {
        Scanner { phase: ScanPhase::Running, pos: start, dir: ScanDirection::Forward }
    }

    /// A backward scan below the exclusive upper bound `upper`: it visits
    /// `upper - 1` down to `0` and finishes after `0`. With `upper == 0`
    /// there is nothing below the bound and the scan is born finished.
    pub fn backward(upper: u32) -> (s: Scanner)
        ensures
            upper == 0 ==> s == (Scanner { phase: ScanPhase::Finished, pos: 0u32, dir: ScanDirection::Backward }),
            upper > 0 ==> s == (Scanner { phase: ScanPhase::Running, pos: (upper - 1) as u32, dir: ScanDirection::Backward }),
    {
        if upper == 0 {
            Scanner { phase: ScanPhase::Finished, pos: 0, dir: ScanDirection::Backward }
        } else {
            Scanner { phase: ScanPhase::Running, pos: upper - 1, dir: ScanDirection::Backward }
        }
    }

    /// One step in the scan's direction, finishing where the bound is
    /// crossed.
    fn advance(&mut self)
        requires
            old(self).phase == ScanPhase::Running,
        ensures
            *final(self) == spec_advance(*old(self)),
    {
        match self.dir {
            ScanDirection::Forward => {
                if self.pos == u32::MAX {
                    self.phase = ScanPhase::Finished;
                } else {
                    self.pos = self.pos + 1;
                }
            },
            ScanDirection::Backward => {
                if self.pos == 0 {
                    self.phase = ScanPhase::Finished;
                } else {
                    self.pos = self.pos - 1;
                }
            },
        }
    }

    /// Feed the outcome of fetching the current identifier through the
    /// backoff policy: a found record is handed back for persisting and the
    /// scan advances; a transport error advances without output; `NotFound`
    /// holds the position and stalls.
    pub fn on_outcome(&mut self, outcome: FetchOutcome) -> (act: ScanAction)
        requires
            old(self).phase == ScanPhase::Running,
        ensures
            match outcome {
                FetchOutcome::Found(r) => {
                    &&& *final(self) == spec_advance(*old(self))
                    &&& act == ScanAction::Persist(r, PACE_MS)
                },
                FetchOutcome::TransportError(detail) => {
                    &&& *final(self) == spec_advance(*old(self))
                    &&& act == ScanAction::Skip(detail, PACE_MS)
                },
                FetchOutcome::NotFound => {
                    &&& *final(self) == (Scanner { phase: ScanPhase::Stalled, ..*old(self) })
                    &&& act == ScanAction::Stall(STALL_MS)
                },
            },
    {
        match decide(&outcome) {
            BackoffDecision::StallAndRetry(ms) => {
                self.phase = ScanPhase::Stalled;
                ScanAction::Stall(ms)
            },
            BackoffDecision::Advance => {
                match outcome {
                    FetchOutcome::Found(r) => {
                        self.advance();
                        ScanAction::Persist(r, PACE_MS)
                    },
                    FetchOutcome::TransportError(detail) => {
                        self.advance();
                        ScanAction::Skip(detail, PACE_MS)
                    },
                    FetchOutcome::NotFound => unreached(),
                }
            },
        }
    }

    /// End a stall: back to `Running` at the very same position.
    pub fn resume(&mut self)
        requires
            old(self).phase == ScanPhase::Stalled,
        ensures
            *final(self) == (Scanner { phase: ScanPhase::Running, ..*old(self) }),
    {
        self.phase = ScanPhase::Running;
    }

    /// Whether the scan is over.
    pub fn is_finished(&self) -> (b: bool)
        ensures
            b == (self.phase == ScanPhase::Finished),
    {
        match self.phase {
            ScanPhase::Finished => true,
            _ => false,
        }
    }

    /// The identifier the scanner stands at.
    pub fn current_id(&self) -> (id: u32)
        ensures
            id == self.pos,
    {
        self.pos
    }
}

/// The coordinator's plan: one forward scan from `start_forward` onward and
/// one backward scan below `start_backward`, meant to run concurrently
/// against the same output target. Neither scanner knows of the other; the
/// caller runs each to completion (the forward one by design never reaches
/// it short of the top of the identifier space).
pub fn plan_scans(start_forward: u32, start_backward: u32) -> (pair: (Scanner, Scanner))
    ensures
        pair.0 == (Scanner {
            phase: ScanPhase::Running,
            pos: start_forward,
            dir: ScanDirection::Forward,
        }),
        start_backward == 0 ==> pair.1 == (Scanner {
            phase: ScanPhase::Finished,
            pos: 0u32,
            dir: ScanDirection::Backward,
        }),
        start_backward > 0 ==> pair.1 == (Scanner {
            phase: ScanPhase::Running,
            pos: (start_backward - 1) as u32,
            dir: ScanDirection::Backward,
        }),
{
    (Scanner::forward(start_forward), Scanner::backward(start_backward))
}

/// A `NotFound` outcome never moves the scan: however often the same
/// position answers `NotFound` before a record finally appears there,
/// exactly one pair is persisted, it carries the position the scan stood at
/// all along, and the scan then advances exactly once.
pub proof fn lemma_not_found_holds_position(s: Scanner, n: nat, r: Record)
    requires
        s.phase == ScanPhase::Running,
    ensures
        ({
            let outcomes = Seq::new(n, |i: int| FetchOutcome::NotFound).push(FetchOutcome::Found(r));
            let (s2, persisted) = spec_run(s, outcomes);
            persisted =~= seq![(s.pos, r@)] && s2 == spec_advance(s)
        }),
    decreases n,
{
    let outcomes = Seq::new(n, |i: int| FetchOutcome::NotFound).push(FetchOutcome::Found(r));
    if n == 0 {
        assert(outcomes[0] == FetchOutcome::Found(r));
        assert(outcomes.drop_first() =~= Seq::<FetchOutcome>::empty());
        assert(spec_run(spec_advance(s), Seq::<FetchOutcome>::empty()) == (
            spec_advance(s),
            Seq::<(u32, RecordView)>::empty(),
        ));
        assert(spec_run(s, outcomes).1 =~= seq![(s.pos, r@)]);
    } else {
        assert(outcomes[0] == FetchOutcome::NotFound);
        let shorter = Seq::new((n - 1) as nat, |i: int| FetchOutcome::NotFound).push(
            FetchOutcome::Found(r),
        );
        assert(outcomes.drop_first() =~= shorter);
        lemma_not_found_holds_position(s, (n - 1) as nat, r);
    }
}

/// A transport error never produces output, and always advances the scan by
/// exactly one step in its direction, finishing the scan where that step
/// would cross its bound.
pub proof fn lemma_transport_error_advances(s: Scanner, detail: Vec<char>)
    requires
        s.phase == ScanPhase::Running,
    ensures
        ({
            let (s2, persisted) = spec_step(s, FetchOutcome::TransportError(detail));
            &&& persisted is None
            &&& s2 == spec_advance(s)
            &&& (s.dir == ScanDirection::Forward && s.pos < u32::MAX ==> s2.pos == s.pos + 1
                && s2.phase == ScanPhase::Running)
            &&& (s.dir == ScanDirection::Forward && s.pos == u32::MAX ==> s2.phase
                == ScanPhase::Finished)
            &&& (s.dir == ScanDirection::Backward && s.pos > 0 ==> s2.pos == s.pos - 1
                && s2.phase == ScanPhase::Running)
            &&& (s.dir == ScanDirection::Backward && s.pos == 0 ==> s2.phase
                == ScanPhase::Finished)
        }),
{
}

/// Every identifier a run persists lies on the running scan's side of its
/// starting position, and a run that does not start in `Running` persists
/// nothing.
proof fn lemma_run_ids_bounded(s: Scanner, outcomes: Seq<FetchOutcome>)
    ensures
        ({
            let (s2, persisted) = spec_run(s, outcomes);
            &&& (s.phase != ScanPhase::Running ==> persisted =~= Seq::<(u32, RecordView)>::empty())
            &&& (forall|i: int|
                0 <= i < persisted.len() ==> (s.dir == ScanDirection::Forward
                    ==> persisted[i].0 >= s.pos) && (s.dir == ScanDirection::Backward
                    ==> persisted[i].0 <= s.pos))
            &&& s2.dir == s.dir
        }),
    decreases outcomes.len(),
{
    if outcomes.len() == 0 {
    } else {
        let (s1, p) = spec_step(s, outcomes[0]);
        lemma_run_ids_bounded(s1, outcomes.drop_first());
    }
}

/// The persisted identifiers of any run are strictly monotone in the scan's
/// direction: strictly increasing for a forward scan, strictly decreasing
/// for a backward one.
pub proof fn lemma_persisted_ids_monotone(s: Scanner, outcomes: Seq<FetchOutcome>)
    ensures
        ({
            let (s2, persisted) = spec_run(s, outcomes);
            forall|i: int, j: int|
                0 <= i < j < persisted.len() ==> (s.dir == ScanDirection::Forward
                    ==> persisted[i].0 < persisted[j].0) && (s.dir == ScanDirection::Backward
                    ==> persisted[i].0 > persisted[j].0)
        }),
    decreases outcomes.len(),
{
    if outcomes.len() == 0 {
    } else {
        let (s1, p) = spec_step(s, outcomes[0]);
        let (s2, rest) = spec_run(s1, outcomes.drop_first());
        lemma_persisted_ids_monotone(s1, outcomes.drop_first());
        lemma_run_ids_bounded(s1, outcomes.drop_first());
    }
}

} // verus!
