//! Connector snapshots: which connectors exist and what their status reads.

use vstd::prelude::*;
use crate::text::{contains_sub, contains_text};

verus! {

/// The map that a sequence of recorded pairs denotes: a later pair for the
/// same connector replaces an earlier one.
pub open spec fn pairs_map(s: Seq<(String, String)>) -> Map<Seq<char>, Seq<char>>
    decreases s.len(),
{
    if s.len() == 0 {
        Map::empty()
    } else {
        pairs_map(s.drop_last()).insert(s.last().0@, s.last().1@)
    }
}

proof fn lemma_pairs_map_dom(s: Seq<(String, String)>, k: Seq<char>)
    ensures
        pairs_map(s).contains_key(k) <==> exists|j: int| 0 <= j < s.len() && (#[trigger] s[j]).0@ == k,
    decreases s.len(),
{
    if s.len() > 0 {
        lemma_pairs_map_dom(s.drop_last(), k);
        if pairs_map(s.drop_last()).contains_key(k) {
            let j = choose|j: int| 0 <= j < s.drop_last().len() && (#[trigger] s.drop_last()[j]).0@ == k;
            assert(s[j] == s.drop_last()[j]);
        }
        if exists|j: int| 0 <= j < s.len() && (#[trigger] s[j]).0@ == k {
            let j = choose|j: int| 0 <= j < s.len() && (#[trigger] s[j]).0@ == k;
            if j < s.len() - 1 {
                assert(s.drop_last()[j] == s[j]);
            }
        }
    }
}

proof fn lemma_pairs_map_last(s: Seq<(String, String)>, j: int)
    requires
        0 <= j < s.len(),
        forall|l: int| j < l < s.len() ==> (#[trigger] s[l]).0@ != s[j].0@,
    ensures
        pairs_map(s).contains_key(s[j].0@),
        pairs_map(s)[s[j].0@] == s[j].1@,
    decreases s.len(),
{
    if j < s.len() - 1 {
        assert forall|l: int| j < l < s.drop_last().len() implies (#[trigger] s.drop_last()[l]).0@ != s.drop_last()[j].0@ by {
            assert(s[l] == s.drop_last()[l]);
        }
        lemma_pairs_map_last(s.drop_last(), j);
        assert(s.last() == s[s.len() - 1]);
    }
}

/// A point-in-time mapping from connector name (such as `card0-DP-1`) to the
/// raw text of its status file.
#[derive(Debug)]
pub struct ConnectorSnapshot {
    entries: Vec<(String, String)>,
}

impl View for ConnectorSnapshot {
    type V = Map<Seq<char>, Seq<char>>;

    closed spec fn view(&self) -> Map<Seq<char>, Seq<char>> {
        pairs_map(self.entries@)
    }
}

impl ConnectorSnapshot {
    /// A snapshot with no connectors.
    pub fn new() -> (r: ConnectorSnapshot)
        ensures
            r@ == Map::<Seq<char>, Seq<char>>::empty(),
    {
        ConnectorSnapshot { entries: Vec::new() }
    }

    /// Records `status` for `connector`, replacing any earlier status.
    pub fn insert(&mut self, connector: String, status: String)
        ensures
            final(self)@ == old(self)@.insert(connector@, status@),
    {
        self.entries.push((connector, status));
        assert(self.entries@.drop_last() =~= old(self).entries@);
    }

    /// The status recorded for `connector`, if any.
    pub fn status_of(&self, connector: &String) -> (r: Option<&String>)
        ensures
            r matches Some(v) ==> self@.contains_key(connector@) && self@[connector@] == v@,
            r is None ==> !self@.contains_key(connector@),
    {
        let mut i: usize = self.entries.len();
        while i > 0
            invariant
                i <= self.entries@.len(),
                forall|l: int| i <= l < self.entries@.len() ==> (#[trigger] self.entries@[l]).0@ != connector@,
            decreases i,
        {
            i = i - 1;
            if self.entries[i].0 == *connector {
                proof {
                    lemma_pairs_map_last(self.entries@, i as int);
                }
                return Some(&self.entries[i].1);
            }
        }
        proof {
            lemma_pairs_map_dom(self.entries@, connector@);
        }
        None
    }

    /// Whether every connector of `self` is in `other` with the same status.
    fn included_in(&self, other: &ConnectorSnapshot) -> (r: bool)
        ensures
            r == forall|k: Seq<char>| #[trigger] self@.contains_key(k) ==> other@.contains_key(k) && other@[k] == self@[k],
    {
        let mut i: usize = 0;
        while i < self.entries.len()
            invariant
                i <= self.entries@.len(),
                forall|l: int| 0 <= l < i ==> {
                    let k = (#[trigger] self.entries@[l]).0@;
                    self@.contains_key(k) && other@.contains_key(k) && other@[k] == self@[k]
                },
            decreases self.entries@.len() - i,
        {
            let key = &self.entries[i].0;
            let mine = self.status_of(key);
            let theirs = other.status_of(key);
            proof {
                lemma_pairs_map_dom(self.entries@, key@);
                assert(self@.contains_key(key@));
            }
            match (mine, theirs) {
                (Some(a), Some(b)) => {
                    if !(*a == *b) {
                        return false;
                    }
                },
                _ => {
                    return false;
                },
            }
            i = i + 1;
        }
        proof {
            assert forall|k: Seq<char>| #[trigger] self@.contains_key(k) implies other@.contains_key(k) && other@[k] == self@[k] by {
                lemma_pairs_map_dom(self.entries@, k);
                let l = choose|l: int| 0 <= l < self.entries@.len() && (#[trigger] self.entries@[l]).0@ == k;
            }
        }
        true
    }

    /// Whether the two snapshots hold the same connectors with the same
    /// status texts.
    pub fn same_as(&self, other: &ConnectorSnapshot) -> (r: bool)
        ensures
            r == (self@ == other@),
    {
        let r = self.included_in(other) && other.included_in(self);
        proof {
            if r {
                assert(self@ =~= other@);
            }
        }
        r
    }

    /// Whether some connector name contains `pattern`.
    pub fn has_connector_containing(&self, pattern: &str) -> (r: bool)
        ensures
            r == exists|k: Seq<char>| #[trigger] self@.contains_key(k) && contains_sub(k, pattern@),
    {
        let mut i: usize = 0;
        while i < self.entries.len()
            invariant
                i <= self.entries@.len(),
                forall|l: int| 0 <= l < i ==> !contains_sub((#[trigger] self.entries@[l]).0@, pattern@),
            decreases self.entries@.len() - i,
        {
            if contains_text(self.entries[i].0.as_str(), pattern) {
                proof {
                    lemma_pairs_map_dom(self.entries@, self.entries@[i as int].0@);
                    assert(self@.contains_key(self.entries@[i as int].0@));
                }
                return true;
            }
            i = i + 1;
        }
        proof {
            assert forall|k: Seq<char>| #[trigger] self@.contains_key(k) implies !contains_sub(k, pattern@) by {
                lemma_pairs_map_dom(self.entries@, k);
                let l = choose|l: int| 0 <= l < self.entries@.len() && (#[trigger] self.entries@[l]).0@ == k;
            }
        }
        false
    }
}

} // verus!
