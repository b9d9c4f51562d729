use vstd::prelude::*;

use crate::assoc::has_key;
use crate::assoc::keys_unique;
use crate::assoc::lemma_key_at;
use crate::assoc::lookup_of;
use crate::assoc::upserted;
use crate::assoc::value_of;

verus! {

/// The routing table: marker field value to destination index identifier.
/// Built once before the pipeline starts and read-only thereafter.
pub struct RoutingTable {
    entries: Vec<(String, String)>,
}

/// The view of the table's entries as character sequences, order kept.
spec fn entries_view(entries: Seq<(String, String)>) -> Seq<(Seq<char>, Seq<char>)> {
    entries.map_values(|e: (String, String)| (e.0@, e.1@))
}

impl View for RoutingTable {
    type V = Seq<(Seq<char>, Seq<char>)>;

    closed spec fn view(&self) -> Seq<(Seq<char>, Seq<char>)> {
        entries_view(self.entries@)
    }
}

impl RoutingTable {
    /// No two entries share a marker value.
    pub open spec fn wf(self) -> bool {
        keys_unique(self@)
    }

    pub fn new() -> (r: Self)
        ensures
            r@ =~= Seq::<(Seq<char>, Seq<char>)>::empty(),
            r.wf(),
    {
        RoutingTable { entries: Vec::new() }
    }

    /// Map `marker_value` to `index_id`: replace the destination of an
    /// existing entry with that marker value, otherwise append.
    pub fn insert(&mut self, marker_value: String, index_id: String)
        requires
            old(self).wf(),
        ensures
            final(self).wf(),
            final(self)@ == upserted(old(self)@, marker_value@, index_id@),
    {
        let ghost s0 = self@;
        let n = self.entries.len();
        let mut i: usize = 0;
        while i < n
            invariant
                n == self.entries.len(),
                i <= n,
                self@ == s0,
                s0 == old(self)@,
                keys_unique(s0),
                forall|j: int| 0 <= j < i ==> s0[j].0 != marker_value@,
            decreases n - i,
        {
            proof {
                assert(s0[i as int] == (self.entries@[i as int].0@, self.entries@[i as int].1@));
            }
            if self.entries[i].0 == marker_value {
                proof {
                    lemma_key_at(s0, marker_value@, i as int);
                }
                self.entries[i] = (marker_value, index_id);
                proof {
                    assert(self@ =~= s0.update(i as int, (marker_value@, index_id@)));
                    assert(keys_unique(self@));
                }
                return ;
            }
            i += 1;
        }
        assert(!has_key(s0, marker_value@));
        self.entries.push((marker_value, index_id));
        proof {
            assert(self@ =~= s0.push((marker_value@, index_id@)));
            assert forall|p: int, q: int| 0 <= p < q < self@.len() implies self@[p].0
                != self@[q].0 by {
                if q == self@.len() - 1 {
                    assert(s0[p].0 != marker_value@);
                }
            }
        }
    }

    /// The destination index mapped to `marker_value`, if any.
    pub fn lookup(&self, marker_value: &String) -> (r: Option<&String>)
        requires
            self.wf(),
        ensures
            match r {
                Some(d) => lookup_of(self@, marker_value@) == Some(d@),
                None => lookup_of(self@, marker_value@) is None,
            },
    {
        let n = self.entries.len();
        let mut i: usize = 0;
        while i < n
            invariant
                n == self.entries.len(),
                self.wf(),
                i <= n,
                forall|j: int| 0 <= j < i ==> self@[j].0 != marker_value@,
            decreases n - i,
        {
            proof {
                assert(self@[i as int] == (self.entries@[i as int].0@, self.entries@[i as int].1@));
            }
            if self.entries[i].0 == *marker_value {
                proof {
                    lemma_key_at(self@, marker_value@, i as int);
                }
                return Some(&self.entries[i].1);
            }
            i += 1;
        }
        assert(!has_key(self@, marker_value@));
        None
    }

    /// The number of mappings held.
    pub fn len(&self) -> (n: usize)
        ensures
            n == self@.len(),
    {
        self.entries.len()
    }
}

impl Clone for RoutingTable {
    fn clone(&self) -> (r: Self)
        ensures
            r@ == self@,
    {
        let mut entries: Vec<(String, String)> = Vec::new();
        let n = self.entries.len();
        let mut i: usize = 0;
        while i < n
            invariant
                n == self.entries.len(),
                i <= n,
                entries_view(entries@) =~= self@.take(i as int),
            decreases n - i,
        {
            let marker = self.entries[i].0.clone();
            let index_id = self.entries[i].1.clone();
            let ghost pre = entries@;
            entries.push((marker, index_id));
            proof {
                assert(self@[i as int] == (self.entries@[i as int].0@, self.entries@[i as int].1@));
                assert(entries_view(entries@) =~= entries_view(pre).push((marker@, index_id@)));
                assert(entries_view(entries@) =~= self@.take(i as int + 1));
            }
            i += 1;
        }
        let r = RoutingTable { entries };
        proof {
            assert(self@.take(n as int) =~= self@);
        }
        r
    }
}

} // verus!
