//! Planning the external commands that a detected transition calls for.

use vstd::prelude::*;
use crate::detect::{TransitionResult, TransitionView, detect, detect_spec, matched_displays};
use crate::registry::{DisplayConfig, DisplayView, displays_view};
use crate::snapshot::ConnectorSnapshot;

verus! {

/// One step for the poll loop to carry out, in order.
#[derive(Debug)]
pub enum Action {
    /// Ask the display server to detect outputs and apply its default
    /// arrangement.
    Autoconfigure,
    /// Run the layout script of this display (resolved against the home
    /// directory) through a shell.
    RunLayout(DisplayConfig),
    /// Sample the connectors again and take the result as the new baseline.
    Resample,
}

/// An action as plain values.
pub enum ActionView {
    Autoconfigure,
    RunLayout(DisplayView),
    Resample,
}

impl View for Action {
    type V = ActionView;

    open spec fn view(&self) -> ActionView {
        match self {
            Action::Autoconfigure => ActionView::Autoconfigure,
            Action::RunLayout(d) => ActionView::RunLayout(d@),
            Action::Resample => ActionView::Resample,
        }
    }
}

/// The views of a list of actions, in order.
pub open spec fn actions_view(s: Seq<Action>) -> Seq<ActionView> {
    s.map_values(|a: Action| a@)
}

/// For each display in turn: autoconfigure, its layout script, a fresh sample.
pub open spec fn display_steps(m: Seq<DisplayView>) -> Seq<ActionView>
    decreases m.len(),
{
    if m.len() == 0 {
        Seq::empty()
    } else {
        display_steps(m.drop_last()) + seq![
            ActionView::Autoconfigure,
            ActionView::RunLayout(m.last()),
            ActionView::Resample,
        ]
    }
}

/// Nothing when unchanged; the autoconfigure command and a fresh sample when
/// the change concerns no configured display; otherwise the steps of each
/// display. Every change thus ends in a resample, so the baseline is replaced
/// and the same inequality does not fire again on the next tick.
pub open spec fn plan_spec(t: TransitionView) -> Seq<ActionView> {
    match t {
        TransitionView::Unchanged => Seq::empty(),
        TransitionView::Changed(m) => if m.len() == 0 {
            seq![ActionView::Autoconfigure, ActionView::Resample]
        } else {
            display_steps(m)
        },
    }
}

/// The actions that a transition calls for, in the order they are to run.
pub fn apply(result: &TransitionResult) -> (r: Vec<Action>)
    ensures
        actions_view(r@) == plan_spec(result@),
{
    let mut out: Vec<Action> = Vec::new();
    match result {
        TransitionResult::Unchanged => {
            assert(actions_view(out@) =~= Seq::<ActionView>::empty());
        },
        TransitionResult::Changed(m) => {
            if m.len() == 0 {
                out.push(Action::Autoconfigure);
                out.push(Action::Resample);
                assert(actions_view(out@) =~= seq![ActionView::Autoconfigure, ActionView::Resample]);
            } else {
                let ghost mv = displays_view(m@);
                let mut i: usize = 0;
                assert(actions_view(out@) =~= Seq::<ActionView>::empty());
                assert(mv.take(0) =~= Seq::<DisplayView>::empty());
                while i < m.len()
                    invariant
                        i <= m@.len(),
                        mv == displays_view(m@),
                        actions_view(out@) == display_steps(mv.take(i as int)),
                    decreases m@.len() - i,
                {
                    assert(mv.take(i + 1).drop_last() =~= mv.take(i as int));
                    assert(mv.take(i + 1).last() == m@[i as int]@);
                    let ghost prev = out@;
                    out.push(Action::Autoconfigure);
                    out.push(Action::RunLayout(m[i].duplicate()));
                    out.push(Action::Resample);
                    assert(actions_view(out@) =~= actions_view(prev) + seq![
                        ActionView::Autoconfigure,
                        ActionView::RunLayout(m@[i as int]@),
                        ActionView::Resample,
                    ]);
                    i = i + 1;
                }
                assert(mv.take(m@.len() as int) =~= mv);
            }
        },
    }
    out
}

proof fn lemma_display_steps_end(m: Seq<DisplayView>)
    requires
        m.len() > 0,
    ensures
        display_steps(m).len() > 0,
        display_steps(m).last() == ActionView::Resample,
{
    let tail = seq![ActionView::Autoconfigure, ActionView::RunLayout(m.last()), ActionView::Resample];
    assert((display_steps(m.drop_last()) + tail).last() == tail[2]);
}

/// A tick plans a fresh sample as its last action exactly when the snapshot
/// changed: after any change the baseline is replaced by the newest sample,
/// and an unchanged snapshot leaves it as it is and runs nothing.
pub proof fn lemma_change_replaces_baseline(
    baseline: Map<Seq<char>, Seq<char>>,
    current: Map<Seq<char>, Seq<char>>,
    reg: Seq<DisplayView>,
)
    ensures
        baseline == current ==> plan_spec(detect_spec(baseline, current, reg)).len() == 0,
        baseline != current ==> {
            let plan = plan_spec(detect_spec(baseline, current, reg));
            plan.len() > 0 && plan.last() == ActionView::Resample
        },
{
    if baseline != current {
        let m = matched_displays(reg, current);
        if m.len() > 0 {
            lemma_display_steps_end(m);
        }
    }
}

/// One tick of the poll loop: compare the baseline with a fresh sample and
/// plan the actions that the comparison calls for.
pub fn tick(
    baseline: &ConnectorSnapshot,
    current: &ConnectorSnapshot,
    registry: &Vec<DisplayConfig>,
) -> (r: Vec<Action>)
    ensures
        actions_view(r@) == plan_spec(detect_spec(baseline@, current@, displays_view(registry@))),
{
    let result = detect(baseline, current, registry);
    apply(&result)
}

} // verus!
