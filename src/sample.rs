//! Turning a listing of the sysfs display root into a snapshot.

use vstd::prelude::*;
use crate::snapshot::ConnectorSnapshot;

verus! {

/// One immediate subdirectory of the display root: its name, and the text of
/// its `status` file when it has one.
#[derive(Debug)]
pub struct ConnectorEntry {
    pub name: String,
    pub status: Option<String>,
}

/// The snapshot that a listing denotes: every entry with a status file, keyed
/// by its name; entries without one are left out.
pub open spec fn snapshot_of(s: Seq<ConnectorEntry>) -> Map<Seq<char>, Seq<char>>
    decreases s.len(),
{
    if s.len() == 0 {
        Map::empty()
    } else {
        let rest = snapshot_of(s.drop_last());
        match s.last().status {
            Some(st) => rest.insert(s.last().name@, st@),
            None => rest,
        }
    }
}

/// No two entries of the listing share a name, as in a directory.
pub open spec fn names_unique(s: Seq<ConnectorEntry>) -> bool {
    forall|i: int, j: int| 0 <= i < s.len() && 0 <= j < s.len() && i != j ==> (#[trigger] s[i]).name@ != (#[trigger] s[j]).name@
}

/// Builds the snapshot of a directory listing.
pub fn build_snapshot(entries: &Vec<ConnectorEntry>) -> (r: ConnectorSnapshot)
    ensures
        r@ == snapshot_of(entries@),
{
    let mut snap = ConnectorSnapshot::new();
    let mut i: usize = 0;
    while i < entries.len()
        invariant
            i <= entries@.len(),
            snap@ == snapshot_of(entries@.take(i as int)),
        decreases entries@.len() - i,
    {
        assert(entries@.take(i + 1).drop_last() =~= entries@.take(i as int));
        match &entries[i].status {
            Some(st) => {
                snap.insert(entries[i].name.clone(), st.clone());
            },
            None => {},
        }
        i = i + 1;
    }
    assert(entries@.take(entries@.len() as int) =~= entries@);
    snap
}

proof fn lemma_snapshot_of_unique(s: Seq<ConnectorEntry>, k: Seq<char>)
    requires
        names_unique(s),
    ensures
        snapshot_of(s).contains_key(k) <==> exists|i: int| 0 <= i < s.len() && (#[trigger] s[i]).name@ == k && s[i].status is Some,
        forall|i: int| 0 <= i < s.len() && (#[trigger] s[i]).name@ == k && s[i].status is Some
            ==> snapshot_of(s)[k] == s[i].status->Some_0@,
    decreases s.len(),
{
    if s.len() > 0 {
        let t = s.drop_last();
        assert forall|i: int, j: int| 0 <= i < t.len() && 0 <= j < t.len() && i != j implies (#[trigger] t[i]).name@ != (#[trigger] t[j]).name@ by {
            assert(t[i] == s[i] && t[j] == s[j]);
        }
        lemma_snapshot_of_unique(t, k);
        assert(s.last() == s[s.len() - 1]);
        if exists|i: int| 0 <= i < t.len() && (#[trigger] t[i]).name@ == k && t[i].status is Some {
            let i = choose|i: int| 0 <= i < t.len() && (#[trigger] t[i]).name@ == k && t[i].status is Some;
            assert(s[i] == t[i]);
        }
        assert forall|i: int| 0 <= i < s.len() && (#[trigger] s[i]).name@ == k && s[i].status is Some
            implies snapshot_of(s)[k] == s[i].status->Some_0@ by {
            if i < s.len() - 1 {
                assert(t[i] == s[i]);
            }
        }
        if exists|i: int| 0 <= i < s.len() && (#[trigger] s[i]).name@ == k && s[i].status is Some {
            let i = choose|i: int| 0 <= i < s.len() && (#[trigger] s[i]).name@ == k && s[i].status is Some;
            if i < s.len() - 1 {
                assert(t[i] == s[i]);
            }
        }
    }
}

/// Sampling a static filesystem twice gives equal snapshots: two listings of
/// the same directory entries, in whatever order the directory hands them
/// out, denote the same snapshot.
pub proof fn lemma_sample_stable(a: Seq<ConnectorEntry>, b: Seq<ConnectorEntry>)
    requires
        names_unique(a),
        names_unique(b),
        forall|e: ConnectorEntry| a.contains(e) <==> b.contains(e),
    ensures
        snapshot_of(a) == snapshot_of(b),
{
    assert forall|k: Seq<char>| #[trigger] snapshot_of(a).contains_key(k) == snapshot_of(b).contains_key(k)
        && (snapshot_of(a).contains_key(k) ==> snapshot_of(a)[k] == snapshot_of(b)[k]) by {
        lemma_snapshot_of_unique(a, k);
        lemma_snapshot_of_unique(b, k);
        if exists|i: int| 0 <= i < a.len() && (#[trigger] a[i]).name@ == k && a[i].status is Some {
            let i = choose|i: int| 0 <= i < a.len() && (#[trigger] a[i]).name@ == k && a[i].status is Some;
            assert(a.contains(a[i]));
            assert(b.contains(a[i]));
            let j = choose|j: int| 0 <= j < b.len() && b[j] == a[i];
            assert(b[j].name@ == k);
        }
        if exists|j: int| 0 <= j < b.len() && (#[trigger] b[j]).name@ == k && b[j].status is Some {
            let j = choose|j: int| 0 <= j < b.len() && (#[trigger] b[j]).name@ == k && b[j].status is Some;
            assert(b.contains(b[j]));
            assert(a.contains(b[j]));
            let i = choose|i: int| 0 <= i < a.len() && a[i] == b[j];
            assert(a[i].name@ == k);
        }
    }
    assert(snapshot_of(a) =~= snapshot_of(b));
}

} // verus!
