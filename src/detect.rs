//! Comparing successive snapshots and finding the configured displays.

use vstd::prelude::*;
use crate::registry::{DisplayConfig, DisplayView, displays_view};
use crate::snapshot::ConnectorSnapshot;
use crate::text::{connector_pattern, connector_pattern_of, contains_sub};

verus! {

/// The outcome of comparing two snapshots.
#[derive(Debug)]
pub enum TransitionResult {
    Unchanged,
    /// The snapshot changed; these configured displays are present, in
    /// registry order (none when the change concerns no configured display).
    Changed(Vec<DisplayConfig>),
}

/// The outcome of a comparison as plain values.
pub enum TransitionView {
    Unchanged,
    Changed(Seq<DisplayView>),
}

impl View for TransitionResult {
    type V = TransitionView;

    open spec fn view(&self) -> TransitionView {
        match self {
            TransitionResult::Unchanged => TransitionView::Unchanged,
            TransitionResult::Changed(v) => TransitionView::Changed(displays_view(v@)),
        }
    }
}

/// Some connector of the snapshot has a name containing `"-" + name`.
pub open spec fn is_connected(snap: Map<Seq<char>, Seq<char>>, name: Seq<char>) -> bool {
    exists|k: Seq<char>| #[trigger] snap.contains_key(k) && contains_sub(k, connector_pattern_of(name))
}

/// The configured displays that the snapshot shows, in registry order.
pub open spec fn matched_displays(reg: Seq<DisplayView>, snap: Map<Seq<char>, Seq<char>>) -> Seq<DisplayView>
    decreases reg.len(),
{
    if reg.len() == 0 {
        Seq::empty()
    } else {
        let rest = matched_displays(reg.drop_last(), snap);
        if is_connected(snap, reg.last().name) {
            rest.push(reg.last())
        } else {
            rest
        }
    }
}

/// Unchanged when the snapshots are equal; otherwise changed, with the
/// configured displays that the current snapshot shows.
pub open spec fn detect_spec(
    previous: Map<Seq<char>, Seq<char>>,
    current: Map<Seq<char>, Seq<char>>,
    reg: Seq<DisplayView>,
) -> TransitionView {
    if previous == current {
        TransitionView::Unchanged
    } else {
        TransitionView::Changed(matched_displays(reg, current))
    }
}

/// Compares the baseline with a fresh snapshot and, when they differ, finds
/// the configured displays whose connector is present.
///
/// A display counts as connected whenever some connector name contains its
/// pattern, so a display that stays plugged in is reported again on any later
/// change of the snapshot: the detector reacts to snapshot inequality, not to
/// the edge of a single connector.
pub fn detect(
    previous: &ConnectorSnapshot,
    current: &ConnectorSnapshot,
    registry: &Vec<DisplayConfig>,
) -> (r: TransitionResult)
    ensures
        r@ == detect_spec(previous@, current@, displays_view(registry@)),
{
    if previous.same_as(current) {
        return TransitionResult::Unchanged;
    }
    let ghost reg = displays_view(registry@);
    let mut found: Vec<DisplayConfig> = Vec::new();
    let mut i: usize = 0;
    assert(displays_view(found@) =~= Seq::<DisplayView>::empty());
    assert(reg.take(0) =~= Seq::<DisplayView>::empty());
    while i < registry.len()
        invariant
            i <= registry@.len(),
            reg == displays_view(registry@),
            displays_view(found@) == matched_displays(reg.take(i as int), current@),
        decreases registry@.len() - i,
    {
        assert(reg.take(i + 1).drop_last() =~= reg.take(i as int));
        assert(reg.take(i + 1).last() == registry@[i as int]@);
        let pattern = connector_pattern(registry[i].name.as_str());
        if current.has_connector_containing(pattern.as_str()) {
            let ghost prev = found@;
            found.push(registry[i].duplicate());
            assert(displays_view(found@) =~= displays_view(prev).push(registry@[i as int]@));
        }
        i = i + 1;
    }
    assert(reg.take(registry@.len() as int) =~= reg);
    TransitionResult::Changed(found)
}

proof fn lemma_matched_contains(reg: Seq<DisplayView>, snap: Map<Seq<char>, Seq<char>>, i: int)
    requires
        0 <= i < reg.len(),
        is_connected(snap, reg[i].name),
    ensures
        matched_displays(reg, snap).contains(reg[i]),
    decreases reg.len(),
{
    let rest = matched_displays(reg.drop_last(), snap);
    if i == reg.len() - 1 {
        assert(matched_displays(reg, snap).last() == reg[i]);
    } else {
        assert(reg.drop_last()[i] == reg[i]);
        lemma_matched_contains(reg.drop_last(), snap, i);
        let j = choose|j: int| 0 <= j < rest.len() && rest[j] == reg[i];
        if is_connected(snap, reg.last().name) {
            assert(rest.push(reg.last())[j] == reg[i]);
        }
    }
}

proof fn lemma_matched_none(reg: Seq<DisplayView>, snap: Map<Seq<char>, Seq<char>>)
    requires
        forall|i: int| 0 <= i < reg.len() ==> !is_connected(snap, (#[trigger] reg[i]).name),
    ensures
        matched_displays(reg, snap) == Seq::<DisplayView>::empty(),
    decreases reg.len(),
{
    if reg.len() > 0 {
        assert forall|i: int| 0 <= i < reg.drop_last().len() implies !is_connected(snap, (#[trigger] reg.drop_last()[i]).name) by {
            assert(reg.drop_last()[i] == reg[i]);
        }
        lemma_matched_none(reg.drop_last(), snap);
        assert(!is_connected(snap, reg[reg.len() - 1].name));
    }
}

/// Two snapshots with the same connectors and the same status texts are
/// reported unchanged, whatever the registry holds.
pub proof fn lemma_equal_snapshots_unchanged(
    s1: Map<Seq<char>, Seq<char>>,
    s2: Map<Seq<char>, Seq<char>>,
    reg: Seq<DisplayView>,
)
    requires
        s1 == s2,
    ensures
        detect_spec(s1, s2, reg) == TransitionView::Unchanged,
{
}

/// When the snapshots differ and no connector of the current one contains
/// `"-" + name` for any configured display, the change carries no display.
pub proof fn lemma_unknown_change_matches_nothing(
    s1: Map<Seq<char>, Seq<char>>,
    s2: Map<Seq<char>, Seq<char>>,
    reg: Seq<DisplayView>,
)
    requires
        s1 != s2,
        forall|i: int, k: Seq<char>| 0 <= i < reg.len() && #[trigger] s2.contains_key(k)
            ==> !contains_sub(k, connector_pattern_of((#[trigger] reg[i]).name)),
    ensures
        detect_spec(s1, s2, reg) == TransitionView::Changed(Seq::<DisplayView>::empty()),
{
    assert forall|i: int| 0 <= i < reg.len() implies !is_connected(s2, (#[trigger] reg[i]).name) by {
        if is_connected(s2, reg[i].name) {
            let k = choose|k: Seq<char>| #[trigger] s2.contains_key(k) && contains_sub(k, connector_pattern_of(reg[i].name));
        }
    }
    lemma_matched_none(reg, s2);
}

/// When the snapshots differ and a connector of the current one contains
/// `"-" + name` for a configured display, the change carries that display.
pub proof fn lemma_present_display_matched(
    s1: Map<Seq<char>, Seq<char>>,
    s2: Map<Seq<char>, Seq<char>>,
    reg: Seq<DisplayView>,
    d: DisplayView,
    k: Seq<char>,
)
    requires
        s1 != s2,
        reg.contains(d),
        s2.contains_key(k),
        contains_sub(k, connector_pattern_of(d.name)),
    ensures
        detect_spec(s1, s2, reg) matches TransitionView::Changed(m) && m.contains(d),
{
    let i = choose|i: int| 0 <= i < reg.len() && reg[i] == d;
    lemma_matched_contains(reg, s2, i);
}

/// The connector `card0-DP-1` appearing in a changed snapshot brings the
/// configured display named `DP-1` into the change.
pub proof fn lemma_dp1_on_card0_matched(
    s1: Map<Seq<char>, Seq<char>>,
    s2: Map<Seq<char>, Seq<char>>,
    reg: Seq<DisplayView>,
    d: DisplayView,
)
    requires
        s1 != s2,
        reg.contains(d),
        d.name == "DP-1"@,
        s2.contains_key("card0-DP-1"@),
    ensures
        detect_spec(s1, s2, reg) matches TransitionView::Changed(m) && m.contains(d),
{
    reveal_strlit("DP-1");
    reveal_strlit("card0-DP-1");
    let k = "card0-DP-1"@;
    let p = connector_pattern_of(d.name);
    assert(p.len() == 5);
    assert(k.subrange(5, 10) =~= p);
    assert(k.subrange(5, 5 + p.len() as int) == p);
    lemma_present_display_matched(s1, s2, reg, d, k);
}

} // verus!
