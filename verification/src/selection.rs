//! The steps by which the inputs to fix are chosen and confirmed.
//!
//! Fixing goes from `Checked` through `Selecting`, once for each invalid
//! outcome, to `Confirmed`, and ends in `Applied` or `Aborted`. What is asked
//! of the operator and what is applied in the end is done by the caller: a
//! step says what to do next, and the caller comes back with the answer.

use vstd::prelude::*;
use crate::commands::InputRulesValidationResult;
use crate::commands::results_view;
use crate::commands::ValidationResultView;
use crate::lists::lemma_filter_none;

verus! {

/// Where the fixing of a flake stands. Outcomes are named by their position
/// in the list of outcomes.
#[derive(Debug, PartialEq, Eq)]
pub enum FixState {
    /// The outcomes are there, and nothing was asked yet.
    Checked,
    /// The operator is asked whether to fix the outcome `asking`; `to_fix`
    /// holds the outcomes accepted before.
    Selecting { asking: usize, to_fix: Vec<usize> },
    /// The operator is asked whether to apply the fixes for all of `to_fix`.
    Confirmed { to_fix: Vec<usize> },
    /// The fixes for `to_fix` were handed over to be applied.
    Applied { to_fix: Vec<usize> },
    /// Nothing is fixed: nothing was chosen, or the operator declined.
    Aborted,
}

/// What the caller reports to a step.
#[derive(Clone, Copy, Debug, PartialEq, Eq, Structural)]
pub enum FixEvent {
    /// The outcomes were shown.
    Begin,
    /// The operator said yes to what was asked.
    Yes,
    /// The operator said no to what was asked.
    No,
}

/// What the caller has to do after a step.
#[derive(Debug, PartialEq, Eq)]
pub enum FixAction {
    /// Ask whether to fix the outcome at this position.
    AskFix(usize),
    /// Say that this many inputs were collected, and ask whether to apply
    /// their fixes.
    AskApply(usize),
    /// Apply the fixes for the outcomes at these positions.
    Apply(Vec<usize>),
    /// Say that there is nothing to fix, and end.
    NothingToFix,
    /// End without fixing anything.
    Declined,
    /// Nothing: the state did not wait for this event.
    Ignored,
}

/// A state as plain values.
pub enum FixStateView {
    Checked,
    Selecting { asking: usize, to_fix: Seq<usize> },
    Confirmed { to_fix: Seq<usize> },
    Applied { to_fix: Seq<usize> },
    Aborted,
}

/// An action as plain values.
pub enum FixActionView {
    AskFix(usize),
    AskApply(usize),
    Apply(Seq<usize>),
    NothingToFix,
    Declined,
    Ignored,
}

impl View for FixState {
    type V = FixStateView;

    open spec fn view(&self) -> FixStateView {
        match self {
            FixState::Checked => FixStateView::Checked,
            FixState::Selecting { asking, to_fix } => FixStateView::Selecting {
                asking: *asking,
                to_fix: to_fix@,
            },
            FixState::Confirmed { to_fix } => FixStateView::Confirmed { to_fix: to_fix@ },
            FixState::Applied { to_fix } => FixStateView::Applied { to_fix: to_fix@ },
            FixState::Aborted => FixStateView::Aborted,
        }
    }
}

impl View for FixAction {
    type V = FixActionView;

    open spec fn view(&self) -> FixActionView {
        match self {
            FixAction::AskFix(position) => FixActionView::AskFix(*position),
            FixAction::AskApply(count) => FixActionView::AskApply(*count),
            FixAction::Apply(to_fix) => FixActionView::Apply(to_fix@),
            FixAction::NothingToFix => FixActionView::NothingToFix,
            FixAction::Declined => FixActionView::Declined,
            FixAction::Ignored => FixActionView::Ignored,
        }
    }
}

impl Clone for FixState {
    fn clone(&self) -> (copy: Self)
        ensures
            copy@ == self@,
    {
        match self {
            FixState::Checked => FixState::Checked,
            FixState::Selecting { asking, to_fix } => FixState::Selecting {
                asking: *asking,
                to_fix: to_fix.clone(),
            },
            FixState::Confirmed { to_fix } => FixState::Confirmed { to_fix: to_fix.clone() },
            FixState::Applied { to_fix } => FixState::Applied { to_fix: to_fix.clone() },
            FixState::Aborted => FixState::Aborted,
        }
    }
}

impl Clone for FixAction {
    fn clone(&self) -> (copy: Self)
        ensures
            copy@ == self@,
    {
        match self {
            FixAction::AskFix(position) => FixAction::AskFix(*position),
            FixAction::AskApply(count) => FixAction::AskApply(*count),
            FixAction::Apply(to_fix) => FixAction::Apply(to_fix.clone()),
            FixAction::NothingToFix => FixAction::NothingToFix,
            FixAction::Declined => FixAction::Declined,
            FixAction::Ignored => FixAction::Ignored,
        }
    }
}

impl FixStateView {
    /// The fixing has ended.
    pub open spec fn is_final(self) -> bool {
        self is Applied || self is Aborted
    }
}

impl FixState {
    /// Whether the fixing has ended.
    pub fn is_final(&self) -> (ended: bool)
        ensures
            ended == self@.is_final(),
    {
        match self {
            FixState::Applied { .. } => true,
            FixState::Aborted => true,
            _ => false,
        }
    }
}

/// For each outcome, whether it is valid.
pub open spec fn validity(results: Seq<ValidationResultView>) -> Seq<bool> {
    results.map_values(|result: ValidationResultView| result.is_valid())
}

/// The positions `0`, `1`, and so on, up to `count`.
pub open spec fn positions(count: nat) -> Seq<usize> {
    Seq::new(count, |i: int| i as usize)
}

/// The positions of the invalid outcomes from `from` on, ascending.
pub open spec fn invalid_from(valid: Seq<bool>, from: int) -> Seq<usize> {
    positions(valid.len()).filter(|at: usize| from <= at < valid.len() && !valid[at as int])
}

/// `at` is the position of the first invalid outcome from `from` on, or the
/// number of outcomes where there is none.
pub open spec fn next_invalid_at(valid: Seq<bool>, from: int, at: int) -> bool {
    &&& from <= at <= valid.len()
    &&& at < valid.len() ==> !valid[at]
    &&& forall|i: int| from <= i < at ==> #[trigger] valid[i]
}

/// The position of the first invalid outcome from `from` on, or the number
/// of outcomes where there is none.
pub open spec fn next_invalid(valid: Seq<bool>, from: int) -> int {
    choose|at: int| next_invalid_at(valid, from, at)
}

/// What follows once the outcomes to fix are chosen: nothing if none was
/// chosen; else the fixes are applied, after the operator was asked unless
/// the run is unattended.
pub open spec fn settled(to_fix: Seq<usize>, non_interactive: bool) -> (FixStateView, FixActionView) {
    if to_fix.len() == 0 {
        (FixStateView::Aborted, FixActionView::NothingToFix)
    } else if non_interactive {
        (FixStateView::Applied { to_fix }, FixActionView::Apply(to_fix))
    } else {
        (FixStateView::Confirmed { to_fix }, FixActionView::AskApply(to_fix.len() as usize))
    }
}

/// What follows when the outcomes before `from` are dealt with and `to_fix`
/// were accepted among them: an unattended run accepts every invalid outcome
/// that is left; an attended one asks about the next invalid outcome, and
/// settles when there is none.
pub open spec fn selecting_from(
    valid: Seq<bool>,
    non_interactive: bool,
    from: int,
    to_fix: Seq<usize>,
) -> (FixStateView, FixActionView) {
    if non_interactive {
        settled(to_fix + invalid_from(valid, from), true)
    } else {
        let next = next_invalid(valid, from);
        if next < valid.len() {
            (
                FixStateView::Selecting { asking: next as usize, to_fix },
                FixActionView::AskFix(next as usize),
            )
        } else {
            settled(to_fix, false)
        }
    }
}

/// One step of the fixing: the state that follows `state` on `event`, and
/// what the caller has to do. An event that the state does not wait for
/// changes nothing.
pub open spec fn fix_step(
    valid: Seq<bool>,
    non_interactive: bool,
    state: FixStateView,
    event: FixEvent,
) -> (FixStateView, FixActionView) {
    match state {
        FixStateView::Checked => if event == FixEvent::Begin {
            selecting_from(valid, non_interactive, 0, Seq::empty())
        } else {
            (state, FixActionView::Ignored)
        },
        FixStateView::Selecting { asking, to_fix } => if asking < valid.len() && !valid[asking as int]
            && event != FixEvent::Begin {
            selecting_from(
                valid,
                non_interactive,
                asking + 1,
                if event == FixEvent::Yes {
                    to_fix.push(asking)
                } else {
                    to_fix
                },
            )
        } else {
            (state, FixActionView::Ignored)
        },
        FixStateView::Confirmed { to_fix } => if event == FixEvent::Yes {
            (FixStateView::Applied { to_fix }, FixActionView::Apply(to_fix))
        } else if event == FixEvent::No {
            (FixStateView::Aborted, FixActionView::Declined)
        } else {
            (state, FixActionView::Ignored)
        },
        _ => (state, FixActionView::Ignored),
    }
}

/// Only one position is that of the next invalid outcome.
pub proof fn lemma_next_invalid_is_unique(valid: Seq<bool>, from: int, at: int)
    requires
        next_invalid_at(valid, from, at),
    ensures
        next_invalid(valid, from) == at,
{
    let other = next_invalid(valid, from);
    assert(next_invalid_at(valid, from, other));
    if other < at {
        assert(valid[other]);
    } else if at < other {
        assert(valid[at]);
    }
}

/// An unattended run never asks: from the start it goes straight to the end,
/// with every invalid outcome to fix, or with nothing to fix where every
/// outcome is valid.
pub proof fn lemma_unattended_run_never_asks(valid: Seq<bool>)
    ensures
        fix_step(valid, true, FixStateView::Checked, FixEvent::Begin).0.is_final(),
        fix_step(valid, true, FixStateView::Checked, FixEvent::Begin) == settled(
            invalid_from(valid, 0),
            true,
        ),
{
    assert(Seq::<usize>::empty() + invalid_from(valid, 0) =~= invalid_from(valid, 0));
}

/// What follows once the outcomes to fix are chosen.
pub(crate) fn settle(to_fix: Vec<usize>, non_interactive: bool) -> (step: (FixState, FixAction))
    ensures
        (step.0@, step.1@) == settled(to_fix@, non_interactive),
{
    if to_fix.len() == 0 {
        (FixState::Aborted, FixAction::NothingToFix)
    } else if non_interactive {
        let copy = to_fix.clone();
        (FixState::Applied { to_fix: copy }, FixAction::Apply(to_fix))
    } else {
        let count: usize = to_fix.len();
        (FixState::Confirmed { to_fix }, FixAction::AskApply(count))
    }
}

/// What follows when the outcomes before `from` are dealt with.
pub(crate) fn select_from(
    results: &[InputRulesValidationResult],
    non_interactive: bool,
    from: usize,
    to_fix: Vec<usize>,
) -> (step: (FixState, FixAction))
    requires
        from <= results@.len(),
    ensures
        (step.0@, step.1@) == selecting_from(
            validity(results_view(results@)),
            non_interactive,
            from as int,
            to_fix@,
        ),
{
    let ghost valid = validity(results_view(results@));
    let ghost accepted = to_fix@;
    let mut to_fix = to_fix;
    let mut i: usize = from;
    if non_interactive {
        let ghost wanted = |at: usize| from <= at < valid.len() && !valid[at as int];
        let ghost all = positions(valid.len());
        proof {
            lemma_filter_none(all.take(from as int), wanted);
            assert(to_fix@ =~= accepted + all.take(from as int).filter(wanted));
        }
        while i < results.len()
            invariant
                from <= i <= results@.len(),
                valid == validity(results_view(results@)),
                all == positions(valid.len()),
                wanted == |at: usize| from <= at < valid.len() && !valid[at as int],
                to_fix@ == accepted + all.take(i as int).filter(wanted),
            decreases results@.len() - i,
        {
            proof {
                assert(all.take(i + 1) =~= all.take(i as int).push(i));
                all.take(i as int).lemma_filter_push(i, wanted);
            }
            if !results[i].is_valid() {
                to_fix.push(i);
            }
            i += 1;
        }
        proof {
            assert(all.take(i as int) =~= all);
        }
        settle(to_fix, true)
    } else {
        while i < results.len() && results[i].is_valid()
            invariant
                from <= i <= results@.len(),
                valid == validity(results_view(results@)),
                forall|j: int| from <= j < i ==> #[trigger] valid[j],
            decreases results@.len() - i,
        {
            i += 1;
        }
        proof {
            lemma_next_invalid_is_unique(valid, from as int, i as int);
        }
        if i < results.len() {
            (FixState::Selecting { asking: i, to_fix }, FixAction::AskFix(i))
        } else {
            settle(to_fix, false)
        }
    }
}

} // verus!
