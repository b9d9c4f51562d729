use vstd::prelude::*;

use crate::assoc::has_key;
use crate::assoc::key_at;
use crate::assoc::keys_unique;
use crate::assoc::lemma_key_at;
use crate::assoc::value_of;
use crate::value::LogValue;
use crate::value::LogValueV;

verus! {

/// One captured event payload: the event's named fields in arrival order.
/// No field name occurs twice; recording a name again replaces its value.
pub struct LogRecord {
    fields: Vec<(String, LogValue)>,
}

/// The view of a field sequence: each name and value as its mathematical
/// counterpart, order kept.
spec fn fields_view(fields: Seq<(String, LogValue)>) -> Seq<(Seq<char>, LogValueV)> {
    fields.map_values(|e: (String, LogValue)| (e.0@, e.1@))
}

impl View for LogRecord {
    type V = Seq<(Seq<char>, LogValueV)>;

    closed spec fn view(&self) -> Seq<(Seq<char>, LogValueV)> {
        fields_view(self.fields@)
    }
}

impl LogRecord {
    /// No two entries share a field name.
    pub open spec fn wf(self) -> bool {
        keys_unique(self@)
    }

    pub fn new() -> (r: Self)
        ensures
            r@ =~= Seq::<(Seq<char>, LogValueV)>::empty(),
            r.wf(),
    {
        LogRecord { fields: Vec::new() }
    }

    /// Store `value` under `key`: replace the value of an existing entry
    /// with that name, otherwise append a new entry.
    pub fn insert(&mut self, key: String, value: LogValue)
        requires
            old(self).wf(),
        ensures
            final(self).wf(),
            final(self)@ == crate::assoc::upserted(old(self)@, key@, value@),
    {
        let ghost s0 = self@;
        let n = self.fields.len();
        let mut i: usize = 0;
        while i < n
            invariant
                n == self.fields.len(),
                i <= n,
                self@ == s0,
                s0 == old(self)@,
                keys_unique(s0),
                forall|j: int| 0 <= j < i ==> s0[j].0 != key@,
            decreases n - i,
        {
            proof {
                assert(s0[i as int] == (self.fields@[i as int].0@, self.fields@[i as int].1@));
            }
            if self.fields[i].0 == key {
                proof {
                    lemma_key_at(s0, key@, i as int);
                }
                self.fields[i] = (key, value);
                proof {
                    assert(self@ =~= s0.update(i as int, (key@, value@)));
                    assert(keys_unique(self@));
                }
                return ;
            }
            i += 1;
        }
        assert(!has_key(s0, key@));
        self.fields.push((key, value));
        proof {
            assert(self@ =~= s0.push((key@, value@)));
            assert forall|p: int, q: int| 0 <= p < q < self@.len() implies self@[p].0
                != self@[q].0 by {
                if q == self@.len() - 1 {
                    assert(s0[p].0 != key@);
                }
            }
        }
    }

    /// Look the value of a field up by name.
    pub fn get(&self, key: &String) -> (r: Option<&LogValue>)
        requires
            self.wf(),
        ensures
            match r {
                Some(v) => has_key(self@, key@) && v@ == value_of(self@, key@),
                None => !has_key(self@, key@),
            },
    {
        let n = self.fields.len();
        let mut i: usize = 0;
        while i < n
            invariant
                n == self.fields.len(),
                self.wf(),
                i <= n,
                forall|j: int| 0 <= j < i ==> self@[j].0 != key@,
            decreases n - i,
        {
            proof {
                assert(self@[i as int] == (self.fields@[i as int].0@, self.fields@[i as int].1@));
            }
            if self.fields[i].0 == *key {
                proof {
                    lemma_key_at(self@, key@, i as int);
                }
                return Some(&self.fields[i].1);
            }
            i += 1;
        }
        None
    }

    /// The number of fields held.
    pub fn len(&self) -> (n: usize)
        ensures
            n == self@.len(),
    {
        self.fields.len()
    }

    /// The field at position `i`, in arrival order.
    pub fn entry(&self, i: usize) -> (e: &(String, LogValue))
        requires
            i < self@.len(),
        ensures
            (e.0@, e.1@) == self@[i as int],
    {
        proof {
            assert(self@[i as int] == (self.fields@[i as int].0@, self.fields@[i as int].1@));
        }
        &self.fields[i]
    }
}

/// The views of a sequence of records, order kept.
pub open spec fn records_view(s: Seq<LogRecord>) -> Seq<Seq<(Seq<char>, LogValueV)>> {
    s.map_values(|p: LogRecord| p@)
}

impl Clone for LogRecord {
    fn clone(&self) -> (r: Self)
        ensures
            r@ == self@,
    {
        let mut fields: Vec<(String, LogValue)> = Vec::new();
        let n = self.fields.len();
        let mut i: usize = 0;
        while i < n
            invariant
                n == self.fields.len(),
                i <= n,
                fields_view(fields@) =~= self@.take(i as int),
            decreases n - i,
        {
            let name = self.fields[i].0.clone();
            let value = self.fields[i].1.clone();
            let ghost pre = fields@;
            fields.push((name, value));
            proof {
                assert(self@[i as int] == (self.fields@[i as int].0@, self.fields@[i as int].1@));
                assert(fields_view(fields@) =~= fields_view(pre).push((name@, value@)));
                assert(fields_view(fields@) =~= self@.take(i as int + 1));
            }
            i += 1;
        }
        let r = LogRecord { fields };
        proof {
            assert(self@.take(n as int) =~= self@);
        }
        r
    }
}

/// An envelope bound for the forwarding worker: the destination index and
/// the captured payload.
pub struct QuickwitLogMessage {
    pub index_id: String,
    pub log: LogRecord,
}

impl QuickwitLogMessage {
    pub open spec fn wf(self) -> bool {
        self.log.wf()
    }
}

/// Mathematical view of an envelope: the destination and the payload.
pub struct MsgView {
    pub index_id: Seq<char>,
    pub log: Seq<(Seq<char>, LogValueV)>,
}

impl View for QuickwitLogMessage {
    type V = MsgView;

    open spec fn view(&self) -> MsgView {
        MsgView { index_id: self.index_id@, log: self.log@ }
    }
}

/// The views of a sequence of envelopes, order kept.
pub open spec fn msg_views(s: Seq<QuickwitLogMessage>) -> Seq<MsgView> {
    s.map_values(|m: QuickwitLogMessage| m@)
}

} // verus!
