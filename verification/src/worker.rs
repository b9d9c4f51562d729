use vstd::prelude::*;
use vstd::string::StrSliceExecFns;
use vstd::string::StringExecFns;

use crate::assoc::has_key;
use crate::assoc::key_at;
use crate::assoc::keys_unique;
use crate::assoc::lemma_key_at;
use crate::assoc::lemma_push_key;
use crate::assoc::lemma_update_value;
use crate::assoc::lookup_of;
use crate::assoc::value_of;
use crate::message::LogRecord;
use crate::message::QuickwitLogMessage;
use crate::message::records_view;
use crate::ndjson::ndjson_body;
use crate::ndjson::ndjson_of;
use crate::value::LogValueV;

verus! {

/// The ingest endpoint for one destination: the backend base, a slash
/// unless the base already ends in one, then `api/v1/`, the index
/// identifier, and `/ingest`.
pub open spec fn ingest_url(base: Seq<char>, index_id: Seq<char>) -> Seq<char> {
    (if base.len() > 0 && base.last() == '/' {
        base
    } else {
        base.push('/')
    }) + "api/v1/"@ + index_id + "/ingest"@
}

/// Build the ingest endpoint for one destination.
pub fn ingest_endpoint(base: &String, index_id: &String) -> (r: String)
    ensures
        r@ == ingest_url(base@, index_id@),
{
    let mut out = base.clone();
    let n = out.as_str().unicode_len();
    let ends_slash: bool = if n > 0 {
        out.as_str().get_char(n - 1) == '/'
    } else {
        false
    };
    if !ends_slash {
        out.push('/');
    }
    out.append("api/v1/");
    out.append(index_id.as_str());
    out.append("/ingest");
    proof {
        assert(out@ =~= ingest_url(base@, index_id@));
    }
    out
}

/// One HTTP POST the forwarder owes: the destination index, the resolved
/// endpoint, and the newline-delimited JSON body of the whole batch.
pub struct FlushRequest {
    pub index_id: String,
    pub url: String,
    pub body: String,
}

/// Mathematical view of a `FlushRequest`.
pub struct FlushView {
    pub index_id: Seq<char>,
    pub url: Seq<char>,
    pub body: Seq<char>,
}

impl View for FlushRequest {
    type V = FlushView;

    open spec fn view(&self) -> FlushView {
        FlushView { index_id: self.index_id@, url: self.url@, body: self.body@ }
    }
}

/// The views of a sequence of flush requests, order kept.
pub open spec fn flush_views(s: Seq<FlushRequest>) -> Seq<FlushView> {
    s.map_values(|f: FlushRequest| f@)
}

/// The flushes bound for destination `d`, in emission order.
pub open spec fn flushes_to(s: Seq<FlushView>, d: Seq<char>) -> Seq<FlushView> {
    s.filter(|f: FlushView| f.index_id == d)
}

/// The background worker's state: the backend base, the flush threshold,
/// and one ordered payload buffer per destination, owned by this worker
/// alone.
pub struct QuickwitWorker {
    quickwit_url: String,
    batch_size: usize,
    buffers: Vec<(String, Vec<LogRecord>)>,
}

/// The view of the buffers: each destination's key and its payload views,
/// in creation order.
spec fn bufs_view(bufs: Seq<(String, Vec<LogRecord>)>) -> Seq<
    (Seq<char>, Seq<Seq<(Seq<char>, LogValueV)>>),
> {
    bufs.map_values(|e: (String, Vec<LogRecord>)| (e.0@, records_view(e.1@)))
}

impl QuickwitWorker {
    /// The configured backend base.
    pub closed spec fn base_url(self) -> Seq<char> {
        self.quickwit_url@
    }

    /// The configured flush threshold.
    pub closed spec fn batch_limit(self) -> int {
        self.batch_size as int
    }

    /// The destination buffers as an association sequence.
    pub closed spec fn buffers_view(self) -> Seq<(Seq<char>, Seq<Seq<(Seq<char>, LogValueV)>>)> {
        bufs_view(self.buffers@)
    }

    /// The pending payloads buffered for destination `d`, in arrival
    /// order; empty for a destination never routed to.
    pub open spec fn buffer_of(self, d: Seq<char>) -> Seq<Seq<(Seq<char>, LogValueV)>> {
        match lookup_of(self.buffers_view(), d) {
            Some(b) => b,
            None => Seq::empty(),
        }
    }

    /// Buffer keys are unique, the threshold is positive, and no buffer
    /// has reached the threshold (it would have been flushed).
    pub open spec fn wf(self) -> bool {
        &&& keys_unique(self.buffers_view())
        &&& self.batch_limit() >= 1
        &&& forall|d: Seq<char>| #[trigger] self.buffer_of(d).len() < self.batch_limit()
    }

    /// A worker with empty buffers. A threshold of zero is raised to
    /// one, so a batch is never empty.
    pub fn new(quickwit_url: String, batch_size: usize) -> (r: Self)
        ensures
            r.wf(),
            r.base_url() == quickwit_url@,
            r.batch_limit() == if batch_size >= 1 {
                batch_size as int
            } else {
                1
            },
            forall|d: Seq<char>| #[trigger] r.buffer_of(d).len() == 0,
    {
        let threshold: usize = if batch_size >= 1 {
            batch_size
        } else {
            1
        };
        let r = QuickwitWorker { quickwit_url, batch_size: threshold, buffers: Vec::new() };
        proof {
            assert(r.buffers_view() =~= Seq::<
                (Seq<char>, Seq<Seq<(Seq<char>, LogValueV)>>),
            >::empty());
        }
        r
    }

    /// The position of destination `key`'s buffer, if one exists yet.
    fn find_buffer(&self, key: &String) -> (r: Option<usize>)
        requires
            keys_unique(self.buffers_view()),
        ensures
            match r {
                Some(i) => i < self.buffers_view().len() && self.buffers_view()[i as int].0 == key@
                    && key_at(self.buffers_view(), key@) == i && has_key(
                    self.buffers_view(),
                    key@,
                ),
                None => !has_key(self.buffers_view(), key@),
            },
    {
        let n = self.buffers.len();
        let mut i: usize = 0;
        while i < n
            invariant
                n == self.buffers@.len(),
                i <= n,
                keys_unique(self.buffers_view()),
                forall|j: int| 0 <= j < i ==> self.buffers_view()[j].0 != key@,
            decreases n - i,
        {
            proof {
                assert(self.buffers_view()[i as int] == (
                    self.buffers@[i as int].0@,
                    records_view(self.buffers@[i as int].1@),
                ));
            }
            if self.buffers[i].0 == *key {
                proof {
                    lemma_key_at(self.buffers_view(), key@, i as int);
                }
                return Some(i);
            }
            i += 1;
        }
        None
    }

    /// Take one envelope: append its payload to its destination's buffer
    /// (created on first use), and when that buffer reaches the threshold,
    /// drain it and return the owed POST, with the batch serialized in
    /// arrival order. No other destination's buffer changes.
    pub fn handle_message(&mut self, msg: QuickwitLogMessage) -> (r: Option<FlushRequest>)
        requires
            old(self).wf(),
        ensures
            final(self).wf(),
            final(self).base_url() == old(self).base_url(),
            final(self).batch_limit() == old(self).batch_limit(),
            forall|d: Seq<char>|
                d != msg.index_id@ ==> #[trigger] final(self).buffer_of(d) == old(self).buffer_of(
                    d,
                ),
            ({
                let grown = old(self).buffer_of(msg.index_id@).push(msg.log@);
                if grown.len() == old(self).batch_limit() {
                    r matches Some(req) && req.index_id@ == msg.index_id@ && req.url@ == ingest_url(
                        old(self).base_url(),
                        msg.index_id@,
                    ) && req.body@ == ndjson_of(grown) && final(self).buffer_of(
                        msg.index_id@,
                    ).len() == 0
                } else {
                    r is None && final(self).buffer_of(msg.index_id@) == grown
                }
            }),
    {
        let QuickwitLogMessage { index_id, log } = msg;
        let ghost pre = *self;
        let idx: usize = match self.find_buffer(&index_id) {
            Some(i) => i,
            None => {
                let i = self.buffers.len();
                self.buffers.push((index_id.clone(), Vec::new()));
                proof {
                    assert(bufs_view(self.buffers@) =~= pre.buffers_view().push(
                        (index_id@, records_view(Seq::<LogRecord>::empty())),
                    ));
                    assert(records_view(Seq::<LogRecord>::empty()) =~= Seq::<
                        Seq<(Seq<char>, LogValueV)>,
                    >::empty());
                    lemma_push_key(
                        pre.buffers_view(),
                        index_id@,
                        Seq::<Seq<(Seq<char>, LogValueV)>>::empty(),
                    );
                    lemma_key_at(self.buffers_view(), index_id@, i as int);
                }
                i
            },
        };
        let ghost mid = *self;
        proof {
            assert(keys_unique(mid.buffers_view()));
            assert(mid.buffers_view()[idx as int].0 == index_id@);
            assert(mid.buffer_of(index_id@) == pre.buffer_of(index_id@));
            assert(forall|d: Seq<char>| #[trigger] mid.buffer_of(d) == pre.buffer_of(d));
        }
        let ghost grown = pre.buffer_of(index_id@).push(log@);
        self.buffers[idx].1.push(log);
        proof {
            assert(records_view(self.buffers@[idx as int].1@) =~= mid.buffers_view()[idx as int].1.push(log@));
            assert(self.buffers_view() =~= mid.buffers_view().update(
                idx as int,
                (index_id@, mid.buffers_view()[idx as int].1.push(log@)),
            ));
            lemma_key_at(mid.buffers_view(), index_id@, idx as int);
            assert(mid.buffers_view()[idx as int].1 == mid.buffer_of(index_id@));
            lemma_update_value(mid.buffers_view(), idx as int, grown);
            assert(self.buffer_of(index_id@) == grown);
            assert(forall|d: Seq<char>|
                d != index_id@ ==> #[trigger] self.buffer_of(d) == pre.buffer_of(d));
        }
        if self.buffers[idx].1.len() >= self.batch_size {
            let body = ndjson_body(&self.buffers[idx].1);
            let url = ingest_endpoint(&self.quickwit_url, &index_id);
            let ghost before_clear = *self;
            self.buffers[idx].1.clear();
            proof {
                assert(records_view(Seq::<LogRecord>::empty()) =~= Seq::<
                    Seq<(Seq<char>, LogValueV)>,
                >::empty());
                assert(self.buffers_view() =~= before_clear.buffers_view().update(
                    idx as int,
                    (index_id@, Seq::<Seq<(Seq<char>, LogValueV)>>::empty()),
                ));
                lemma_update_value(
                    before_clear.buffers_view(),
                    idx as int,
                    Seq::<Seq<(Seq<char>, LogValueV)>>::empty(),
                );
                assert(self.buffer_of(index_id@).len() == 0);
                assert(forall|d: Seq<char>|
                    d != index_id@ ==> #[trigger] self.buffer_of(d) == pre.buffer_of(d));
            }
            Some(FlushRequest { index_id, url, body })
        } else {
            None
        }
    }

    /// Close-time drain: empty every buffer, and return one POST for each
    /// destination whose buffer held anything, its whole remainder as the
    /// batch. A destination with an empty (or absent) buffer gets none.
    pub fn handle_close(&mut self) -> (r: Vec<FlushRequest>)
        requires
            old(self).wf(),
        ensures
            final(self).wf(),
            final(self).base_url() == old(self).base_url(),
            final(self).batch_limit() == old(self).batch_limit(),
            forall|d: Seq<char>| #[trigger] final(self).buffer_of(d).len() == 0,
            forall|d: Seq<char>|
                old(self).buffer_of(d).len() == 0 ==> #[trigger] flushes_to(flush_views(r@), d)
                    =~= Seq::<FlushView>::empty(),
            forall|d: Seq<char>|
                old(self).buffer_of(d).len() > 0 ==> #[trigger] flushes_to(flush_views(r@), d)
                    =~= seq![
                    FlushView {
                        index_id: d,
                        url: ingest_url(old(self).base_url(), d),
                        body: ndjson_of(old(self).buffer_of(d)),
                    },
                ],
    {
        let ghost pre = *self;
        let mut r: Vec<FlushRequest> = Vec::new();
        proof {
            assert(flush_views(r@) =~= Seq::<FlushView>::empty());
        }
        while self.buffers.len() > 0
            invariant
                keys_unique(pre.buffers_view()),
                self.quickwit_url == pre.quickwit_url,
                self.batch_size == pre.batch_size,
                self.buffers@.len() <= pre.buffers@.len(),
                self.buffers@ == pre.buffers@.take(self.buffers@.len() as int),
                forall|d: Seq<char>|
                    !has_key(pre.buffers_view().skip(self.buffers@.len() as int), d)
                        ==> #[trigger] flushes_to(flush_views(r@), d) =~= Seq::<FlushView>::empty(),
                forall|d: Seq<char>|
                    has_key(pre.buffers_view().skip(self.buffers@.len() as int), d) && value_of(
                        pre.buffers_view().skip(self.buffers@.len() as int),
                        d,
                    ).len() == 0 ==> #[trigger] flushes_to(flush_views(r@), d) =~= Seq::<
                        FlushView,
                    >::empty(),
                forall|d: Seq<char>|
                    has_key(pre.buffers_view().skip(self.buffers@.len() as int), d) && value_of(
                        pre.buffers_view().skip(self.buffers@.len() as int),
                        d,
                    ).len() > 0 ==> #[trigger] flushes_to(flush_views(r@), d) =~= seq![
                        FlushView {
                            index_id: d,
                            url: ingest_url(pre.base_url(), d),
                            body: ndjson_of(
                                value_of(pre.buffers_view().skip(self.buffers@.len() as int), d),
                            ),
                        },
                    ],
            decreases self.buffers@.len(),
        {
            let ghost m = self.buffers@.len() as int;
            let ghost bv = pre.buffers_view();
            proof {
                assert(bv.skip(m - 1) =~= seq![bv[m - 1]] + bv.skip(m));
                assert(keys_unique(bv.skip(m - 1))) by {
                    assert(forall|j: int|
                        0 <= j < bv.skip(m - 1).len() ==> #[trigger] bv.skip(m - 1)[j] == bv[m - 1
                            + j]);
                }
            }
            let pair = self.buffers.pop().unwrap();
            let (index_id, buf) = pair;
            proof {
                assert(self.buffers@ =~= pre.buffers@.take(m - 1));
                assert((index_id@, records_view(buf@)) == bv[m - 1]);
            }
            if buf.len() > 0 {
                let body = ndjson_body(&buf);
                let url = ingest_endpoint(&self.quickwit_url, &index_id);
                let ghost r0 = flush_views(r@);
                let req = FlushRequest { index_id, url, body };
                let ghost reqv = req@;
                r.push(req);
                proof {
                    assert(flush_views(r@) =~= r0.push(reqv));
                    assert(reqv.index_id == bv[m - 1].0);
                    assert(reqv.body == ndjson_of(bv[m - 1].1));
                    assert(reqv.url == ingest_url(pre.base_url(), bv[m - 1].0));
                    assert forall|d: Seq<char>| true implies #[trigger] flushes_to(
                        flush_views(r@),
                        d,
                    ) == (if d == bv[m - 1].0 {
                        flushes_to(r0, d).push(reqv)
                    } else {
                        flushes_to(r0, d)
                    }) by {
                        r0.lemma_filter_push(reqv, |f: FlushView| f.index_id == d);
                    }
                }
            }
            proof {
                let k = bv[m - 1].0;
                lemma_key_at(bv.skip(m - 1), k, 0);
                assert(!has_key(bv.skip(m), k)) by {
                    if has_key(bv.skip(m), k) {
                        let j = key_at(bv.skip(m), k);
                        assert(bv.skip(m - 1)[j + 1].0 == k);
                        assert(0 < j + 1 < bv.skip(m - 1).len());
                    }
                }
                assert(flushes_to(flush_views(r@), k) =~= (if bv[m - 1].1.len() > 0 {
                    seq![
                        FlushView {
                            index_id: k,
                            url: ingest_url(pre.base_url(), k),
                            body: ndjson_of(bv[m - 1].1),
                        },
                    ]
                } else {
                    Seq::<FlushView>::empty()
                }));
                assert forall|d: Seq<char>| d != k implies (has_key(bv.skip(m - 1), d) == has_key(
                    bv.skip(m),
                    d,
                ) && (has_key(bv.skip(m), d) ==> value_of(bv.skip(m - 1), d) == value_of(
                    bv.skip(m),
                    d,
                ))) by {
                    if has_key(bv.skip(m), d) {
                        let j = key_at(bv.skip(m), d);
                        lemma_key_at(bv.skip(m - 1), d, j + 1);
                        assert(bv.skip(m - 1)[j + 1] == bv.skip(m)[j]);
                    } else if has_key(bv.skip(m - 1), d) {
                        let j = key_at(bv.skip(m - 1), d);
                        assert(j > 0);
                        assert(bv.skip(m)[j - 1].0 == d);
                    }
                }
            }
        }
        proof {
            assert(pre.buffers_view().skip(0) =~= pre.buffers_view());
            assert(self.buffers_view() =~= Seq::<
                (Seq<char>, Seq<Seq<(Seq<char>, LogValueV)>>),
            >::empty());
            assert forall|d: Seq<char>| true implies #[trigger] self.buffer_of(d).len() == 0 by {}
            assert forall|d: Seq<char>| old(self).buffer_of(d).len() > 0 implies #[trigger] flushes_to(
                flush_views(r@),
                d,
            ) =~= seq![
                FlushView {
                    index_id: d,
                    url: ingest_url(old(self).base_url(), d),
                    body: ndjson_of(old(self).buffer_of(d)),
                },
            ] by {
                assert(has_key(pre.buffers_view(), d));
            }
            assert forall|d: Seq<char>| old(self).buffer_of(d).len() == 0 implies #[trigger] flushes_to(
                flush_views(r@),
                d,
            ) =~= Seq::<FlushView>::empty() by {
                if has_key(pre.buffers_view(), d) {
                    assert(value_of(pre.buffers_view(), d).len() == 0);
                }
            }
        }
        r
    }
}

} // verus!
