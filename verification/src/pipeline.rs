use vstd::prelude::*;

use crate::message::MsgView;
use crate::message::QuickwitLogMessage;
use crate::message::msg_views;
use crate::ndjson::ndjson_of;
use crate::value::LogValueV;
use crate::worker::FlushRequest;
use crate::worker::FlushView;
use crate::worker::QuickwitWorker;
use crate::worker::flush_views;
use crate::worker::flushes_to;
use crate::worker::ingest_url;

verus! {

/// The payloads bound for destination `d` in a message stream, in
/// arrival order.
pub open spec fn dest_payloads(msgs: Seq<MsgView>, d: Seq<char>) -> Seq<
    Seq<(Seq<char>, LogValueV)>,
> {
    msgs.filter(|m: MsgView| m.index_id == d).map_values(|m: MsgView| m.log)
}

/// The batches flushed at the threshold: every `n` payloads, in arrival
/// order, as long as a full batch remains.
pub open spec fn full_batches(p: Seq<Seq<(Seq<char>, LogValueV)>>, n: int) -> Seq<
    Seq<Seq<(Seq<char>, LogValueV)>>,
>
    decreases p.len(),
{
    if n < 1 || p.len() < n {
        Seq::empty()
    } else {
        seq![p.take(n)] + full_batches(p.skip(n), n)
    }
}

/// The payloads left buffered after every full batch was flushed: fewer
/// than `n`, possibly none.
pub open spec fn pending_tail(p: Seq<Seq<(Seq<char>, LogValueV)>>, n: int) -> Seq<
    Seq<(Seq<char>, LogValueV)>,
>
    decreases p.len(),
{
    if n < 1 || p.len() < n {
        p
    } else {
        pending_tail(p.skip(n), n)
    }
}

/// Every batch a destination's payload stream produces, in flush order:
/// the full batches, then the close-time remainder if one is pending.
pub open spec fn batches_of(p: Seq<Seq<(Seq<char>, LogValueV)>>, n: int) -> Seq<
    Seq<Seq<(Seq<char>, LogValueV)>>,
> {
    full_batches(p, n) + if pending_tail(p, n).len() > 0 {
        seq![pending_tail(p, n)]
    } else {
        Seq::empty()
    }
}

/// The POST one batch owes destination `d`.
pub open spec fn flush_of_batch(
    b: Seq<Seq<(Seq<char>, LogValueV)>>,
    base: Seq<char>,
    d: Seq<char>,
) -> FlushView {
    FlushView { index_id: d, url: ingest_url(base, d), body: ndjson_of(b) }
}

/// Every POST destination `d` is owed for a payload stream, in flush
/// order.
pub open spec fn flushes_for(
    p: Seq<Seq<(Seq<char>, LogValueV)>>,
    n: int,
    base: Seq<char>,
    d: Seq<char>,
) -> Seq<FlushView> {
    batches_of(p, n).map_values(|b: Seq<Seq<(Seq<char>, LogValueV)>>| flush_of_batch(b, base, d))
}

/// The buffered remainder always stays below the threshold.
pub proof fn lemma_pending_short(p: Seq<Seq<(Seq<char>, LogValueV)>>, n: int)
    requires
        n >= 1,
    ensures
        pending_tail(p, n).len() < n,
    decreases p.len(),
{
    if p.len() >= n {
        lemma_pending_short(p.skip(n), n);
    }
}

/// How one more payload moves the batching state: it either fills the
/// pending batch, which becomes the next full batch, or it joins the
/// pending batch.
pub proof fn lemma_batch_step(p: Seq<Seq<(Seq<char>, LogValueV)>>, x: Seq<(Seq<char>, LogValueV)>, n: int)
    requires
        n >= 1,
    ensures
        pending_tail(p, n).len() + 1 == n ==> full_batches(p.push(x), n) =~~= full_batches(
            p,
            n,
        ).push(pending_tail(p, n).push(x)) && pending_tail(p.push(x), n) =~~= Seq::<
            Seq<(Seq<char>, LogValueV)>,
        >::empty(),
        pending_tail(p, n).len() + 1 < n ==> full_batches(p.push(x), n) =~~= full_batches(p, n)
            && pending_tail(p.push(x), n) =~~= pending_tail(p, n).push(x),
    decreases p.len(),
{
    let q = p.push(x);
    if p.len() + 1 < n {
        assert(pending_tail(p, n) == p);
        assert(pending_tail(q, n) == q);
        assert(full_batches(q, n) =~~= Seq::<Seq<Seq<(Seq<char>, LogValueV)>>>::empty());
    } else if p.len() + 1 == n {
        assert(pending_tail(p, n) == p);
        assert(q.len() == n);
        assert(q.take(n) =~= q);
        assert(q.skip(n) =~= Seq::<Seq<(Seq<char>, LogValueV)>>::empty());
        assert(full_batches(q.skip(n), n) =~~= Seq::<Seq<Seq<(Seq<char>, LogValueV)>>>::empty());
        assert(full_batches(q, n) =~~= seq![q]);
        assert(full_batches(p, n) =~~= Seq::<Seq<Seq<(Seq<char>, LogValueV)>>>::empty());
        assert(pending_tail(q, n) == pending_tail(q.skip(n), n));
        assert(pending_tail(q, n) =~~= Seq::<Seq<(Seq<char>, LogValueV)>>::empty());
    } else {
        assert(p.len() >= n);
        assert(q.len() > n);
        assert(q.take(n) =~= p.take(n));
        assert(q.skip(n) =~= p.skip(n).push(x));
        lemma_pending_short(p, n);
        lemma_batch_step(p.skip(n), x, n);
        assert(pending_tail(p, n) == pending_tail(p.skip(n), n));
        assert(pending_tail(q, n) == pending_tail(q.skip(n), n));
        if pending_tail(p, n).len() + 1 == n {
            assert(full_batches(q, n) =~~= seq![p.take(n)] + full_batches(p.skip(n).push(x), n));
            assert(full_batches(p.skip(n).push(x), n) =~~= full_batches(p.skip(n), n).push(
                pending_tail(p.skip(n), n).push(x),
            ));
            assert(full_batches(q, n) =~~= (seq![p.take(n)] + full_batches(p.skip(n), n)).push(
                pending_tail(p, n).push(x),
            ));
        } else {
            assert(full_batches(q.skip(n), n) == full_batches(p.skip(n).push(x), n));
            assert(full_batches(p.skip(n).push(x), n) =~~= full_batches(p.skip(n), n));
            assert(full_batches(q, n) == seq![q.take(n)] + full_batches(q.skip(n), n));
            assert(seq![q.take(n)] =~~= seq![p.take(n)]);
            assert(full_batches(q, n) =~~= seq![p.take(n)] + full_batches(p.skip(n), n));
        }
    }
}

/// How one more message moves a destination's payload stream: it appends
/// its payload to its own destination's stream and leaves every other
/// stream alone.
pub proof fn lemma_dest_step(msgs: Seq<MsgView>, m: MsgView, d: Seq<char>)
    ensures
        d == m.index_id ==> dest_payloads(msgs.push(m), d) =~~= dest_payloads(msgs, d).push(m.log),
        d != m.index_id ==> dest_payloads(msgs.push(m), d) =~~= dest_payloads(msgs, d),
{
    let pred = |mm: MsgView| mm.index_id == d;
    msgs.lemma_filter_push(m, pred);
    if d == m.index_id {
        assert(msgs.push(m).filter(pred) == msgs.filter(pred).push(m));
        assert(msgs.push(m).filter(pred).map_values(|mm: MsgView| mm.log) =~~= msgs.filter(
            pred,
        ).map_values(|mm: MsgView| mm.log).push(m.log));
    }
}

/// Law: the batches bound for a destination, concatenated in flush
/// order, are exactly its payloads, verbatim and in arrival order — no
/// payload is lost, duplicated, or reordered by batching.
pub proof fn lemma_batches_flatten(p: Seq<Seq<(Seq<char>, LogValueV)>>, n: int)
    requires
        n >= 1,
    ensures
        batches_of(p, n).flatten() =~~= p,
    decreases p.len(),
{
    if p.len() < n {
        if p.len() == 0 {
            assert(batches_of(p, n) =~~= Seq::<Seq<Seq<(Seq<char>, LogValueV)>>>::empty());
            assert(batches_of(p, n).flatten() =~~= p);
        } else {
            assert(batches_of(p, n) =~~= seq![p]);
            let s = seq![p];
            assert(s.drop_first() =~= Seq::<Seq<Seq<(Seq<char>, LogValueV)>>>::empty());
            assert(s.flatten() == s.first() + s.drop_first().flatten());
            assert(s.drop_first().flatten() =~~= Seq::<Seq<(Seq<char>, LogValueV)>>::empty());
            assert(batches_of(p, n).flatten() =~~= p);
        }
    } else {
        lemma_batches_flatten(p.skip(n), n);
        let rest = batches_of(p.skip(n), n);
        assert(batches_of(p, n) =~~= seq![p.take(n)] + rest) by {
            assert(full_batches(p, n) == seq![p.take(n)] + full_batches(p.skip(n), n));
            assert(pending_tail(p, n) == pending_tail(p.skip(n), n));
        }
        let s = seq![p.take(n)] + rest;
        assert(s.drop_first() =~= rest);
        assert(s.flatten() == s.first() + s.drop_first().flatten());
        assert(s.flatten() =~~= p.take(n) + p.skip(n));
        assert(p.take(n) + p.skip(n) =~~= p);
        assert(batches_of(p, n).flatten() =~~= p);
    }
}

/// A member of a flattened sequence of sequences lies in one of them.
proof fn lemma_flatten_member<A>(ss: Seq<Seq<A>>, x: A)
    requires
        ss.flatten().contains(x),
    ensures
        exists|b: int| 0 <= b < ss.len() && #[trigger] ss[b].contains(x),
    decreases ss.len(),
{
    assert(ss.len() > 0) by {
        if ss.len() == 0 {
            assert(ss.flatten().len() == 0);
        }
    }
    assert(ss.flatten() == ss.first() + ss.drop_first().flatten());
    let i = choose|i: int| 0 <= i < ss.flatten().len() && ss.flatten()[i] == x;
    if i < ss.first().len() {
        assert(ss.first().contains(x)) by {
            assert(ss.first()[i] == x);
        }
        assert(ss[0].contains(x));
    } else {
        assert(ss.drop_first().flatten().contains(x)) by {
            assert(ss.drop_first().flatten()[i - ss.first().len()] == x);
        }
        lemma_flatten_member(ss.drop_first(), x);
        let b = choose|b: int| 0 <= b < ss.drop_first().len() && #[trigger] ss.drop_first()[b].contains(x);
        assert(ss[b + 1].contains(x));
    }
}

/// Law: every payload whose marker routed it to destination `d` appears,
/// verbatim, in one of the batches bound for `d`.
pub proof fn lemma_payload_delivered(msgs: Seq<MsgView>, d: Seq<char>, j: int, n: int)
    requires
        n >= 1,
        0 <= j < msgs.len(),
        msgs[j].index_id == d,
    ensures
        exists|b: int|
            0 <= b < batches_of(dest_payloads(msgs, d), n).len() && #[trigger] batches_of(
                dest_payloads(msgs, d),
                n,
            )[b].contains(msgs[j].log),
{
    let pred = |m: MsgView| m.index_id == d;
    let p = dest_payloads(msgs, d);
    assert(msgs.filter(pred).contains(msgs[j])) by {
        msgs.lemma_filter_contains(pred, j);
    }
    let k = choose|k: int| 0 <= k < msgs.filter(pred).len() && msgs.filter(pred)[k] == msgs[j];
    assert(p.contains(msgs[j].log)) by {
        assert(p[k] == msgs[j].log);
    }
    lemma_batches_flatten(p, n);
    lemma_flatten_member(batches_of(p, n), msgs[j].log);
}

/// Law: with threshold `n`, every flush to a destination carries exactly
/// `n` payloads, except the final close-time flush, which carries
/// between one and `n`.
pub proof fn lemma_batch_sizes(p: Seq<Seq<(Seq<char>, LogValueV)>>, n: int)
    requires
        n >= 1,
    ensures
        forall|k: int|
            0 <= k < batches_of(p, n).len() - 1 ==> #[trigger] batches_of(p, n)[k].len() == n,
        batches_of(p, n).len() > 0 ==> 0 < batches_of(p, n).last().len() <= n,
    decreases p.len(),
{
    if p.len() < n {
        if p.len() > 0 {
            assert(batches_of(p, n) =~~= seq![p]);
        }
    } else {
        lemma_batch_sizes(p.skip(n), n);
        let rest = batches_of(p.skip(n), n);
        assert(batches_of(p, n) =~~= seq![p.take(n)] + rest) by {
            assert(full_batches(p, n) == seq![p.take(n)] + full_batches(p.skip(n), n));
            assert(pending_tail(p, n) == pending_tail(p.skip(n), n));
        }
        assert(batches_of(p, n).len() == 1 + rest.len());
        assert forall|k: int| 0 <= k < batches_of(p, n).len() - 1 implies #[trigger] batches_of(
            p,
            n,
        )[k].len() == n by {
            if k == 0 {
                assert(batches_of(p, n)[0] == p.take(n));
            } else {
                assert(batches_of(p, n)[k] == rest[k - 1]);
            }
        }
        if rest.len() > 0 {
            assert(batches_of(p, n).last() == rest.last());
        } else {
            assert(batches_of(p, n).last() == p.take(n));
        }
    }
}

impl QuickwitWorker {
    /// Drive the worker over a whole message stream and close it, as the
    /// background loop does once the queue closes: per destination, the
    /// POSTs issued are exactly one per batch of its payloads — every
    /// `batch_limit` payloads in arrival order, then the close-time
    /// remainder — each with the destination's endpoint and the batch's
    /// newline-delimited JSON body.
    pub fn run_to_completion(&mut self, msgs: Vec<QuickwitLogMessage>) -> (r: Vec<FlushRequest>)
        requires
            old(self).wf(),
            forall|d: Seq<char>| #[trigger] old(self).buffer_of(d).len() == 0,
        ensures
            final(self).wf(),
            forall|d: Seq<char>| #[trigger] final(self).buffer_of(d).len() == 0,
            forall|d: Seq<char>|
                #[trigger] flushes_to(flush_views(r@), d) =~~= flushes_for(
                    dest_payloads(msg_views(msgs@), d),
                    old(self).batch_limit(),
                    old(self).base_url(),
                    d,
                ),
    {
        let ghost n = old(self).batch_limit();
        let ghost base = old(self).base_url();
        let ghost ms = msgs@;
        let mut queue = msgs;
        let mut out: Vec<FlushRequest> = Vec::new();
        let ghost mut i: int = 0;
        proof {
            assert(msg_views(ms).take(0) =~= Seq::<MsgView>::empty());
            assert forall|d: Seq<char>| true implies #[trigger] self.buffer_of(d) =~~= pending_tail(
                dest_payloads(msg_views(ms).take(0), d),
                n,
            ) by {
                assert(dest_payloads(msg_views(ms).take(0), d) =~~= Seq::<
                    Seq<(Seq<char>, LogValueV)>,
                >::empty());
            }
            assert forall|d: Seq<char>| true implies #[trigger] flushes_to(flush_views(out@), d)
                =~~= full_batches(dest_payloads(msg_views(ms).take(0), d), n).map_values(
                |b: Seq<Seq<(Seq<char>, LogValueV)>>| flush_of_batch(b, base, d),
            ) by {
                assert(flush_views(out@) =~= Seq::<FlushView>::empty());
                assert(dest_payloads(msg_views(ms).take(0), d) =~~= Seq::<
                    Seq<(Seq<char>, LogValueV)>,
                >::empty());
            }
        }
        while queue.len() > 0
            invariant
                self.wf(),
                self.base_url() == base,
                self.batch_limit() == n,
                n >= 1,
                0 <= i <= ms.len(),
                queue@ == ms.skip(i),
                forall|d: Seq<char>|
                    #[trigger] self.buffer_of(d) == pending_tail(
                        dest_payloads(msg_views(ms).take(i), d),
                        n,
                    ),
                forall|d: Seq<char>|
                    #[trigger] flushes_to(flush_views(out@), d) == full_batches(
                        dest_payloads(msg_views(ms).take(i), d),
                        n,
                    ).map_values(|b: Seq<Seq<(Seq<char>, LogValueV)>>| flush_of_batch(b, base, d)),
            decreases queue@.len(),
        {
            let msg = queue.remove(0);
            let ghost mv = msg@;
            let ghost key = mv.index_id;
            let ghost dp = |d: Seq<char>| dest_payloads(msg_views(ms).take(i), d);
            proof {
                assert(ms.skip(i)[0] == ms[i]);
                assert(queue@ =~= ms.skip(i + 1));
                assert(msg_views(ms).take(i + 1).drop_last() =~= msg_views(ms).take(i));
                assert(msg_views(ms).take(i + 1).last() == mv);
                assert(msg_views(ms).take(i + 1) =~= msg_views(ms).take(i).push(mv));
            }
            let ghost pre = *self;
            let ghost out_pre = flush_views(out@);
            let flushed = self.handle_message(msg);
            proof {
                lemma_pending_short(dp(key), n);
                lemma_batch_step(dp(key), mv.log, n);
            }
            match flushed {
                Some(req) => {
                    let ghost reqv = req@;
                    out.push(req);
                    proof {
                        assert(flush_views(out@) =~= out_pre.push(reqv));
                        assert(pre.buffer_of(key).push(mv.log).len() == n);
                        assert(reqv.index_id == key);
                        assert(reqv.url == ingest_url(base, key));
                        assert(reqv.body == ndjson_of(pending_tail(dp(key), n).push(mv.log)));
                        assert forall|d: Seq<char>| true implies #[trigger] flushes_to(
                            flush_views(out@),
                            d,
                        ) == full_batches(dest_payloads(msg_views(ms).take(i + 1), d), n).map_values(
                            |b: Seq<Seq<(Seq<char>, LogValueV)>>| flush_of_batch(b, base, d),
                        ) by {
                            lemma_dest_step(msg_views(ms).take(i), mv, d);
                            out_pre.lemma_filter_push(reqv, |f: FlushView| f.index_id == d);
                            if d == key {
                                assert(full_batches(dest_payloads(msg_views(ms).take(i + 1), d), n)
                                    =~~= full_batches(dp(d), n).push(
                                    pending_tail(dp(d), n).push(mv.log),
                                ));
                                assert(flush_of_batch(pending_tail(dp(d), n).push(mv.log), base, d)
                                    == reqv);
                                assert(flushes_to(flush_views(out@), d) =~= flushes_to(
                                    out_pre,
                                    d,
                                ).push(reqv));
                                assert(flushes_to(flush_views(out@), d) =~= full_batches(
                                    dest_payloads(msg_views(ms).take(i + 1), d),
                                    n,
                                ).map_values(
                                    |b: Seq<Seq<(Seq<char>, LogValueV)>>| flush_of_batch(
                                        b,
                                        base,
                                        d,
                                    ),
                                ));
                            } else {
                                assert(flushes_to(flush_views(out@), d) =~= flushes_to(out_pre, d));
                                assert(dest_payloads(msg_views(ms).take(i + 1), d) =~~= dp(d));
                            }
                        }
                        assert forall|d: Seq<char>| true implies #[trigger] self.buffer_of(d)
                            == pending_tail(dest_payloads(msg_views(ms).take(i + 1), d), n) by {
                            lemma_dest_step(msg_views(ms).take(i), mv, d);
                            if d == key {
                                assert(self.buffer_of(d).len() == 0);
                                assert(pending_tail(dest_payloads(msg_views(ms).take(i + 1), d), n)
                                    =~~= Seq::<Seq<(Seq<char>, LogValueV)>>::empty());
                                assert(self.buffer_of(d) =~~= pending_tail(
                                    dest_payloads(msg_views(ms).take(i + 1), d),
                                    n,
                                ));
                            }
                        }
                    }
                },
                None => {
                    proof {
                        assert(pre.buffer_of(key).push(mv.log).len() != n);
                        assert(pending_tail(dp(key), n).len() + 1 < n);
                        assert forall|d: Seq<char>| true implies #[trigger] flushes_to(
                            flush_views(out@),
                            d,
                        ) == full_batches(dest_payloads(msg_views(ms).take(i + 1), d), n).map_values(
                            |b: Seq<Seq<(Seq<char>, LogValueV)>>| flush_of_batch(b, base, d),
                        ) by {
                            lemma_dest_step(msg_views(ms).take(i), mv, d);
                            if d == key {
                                assert(full_batches(dest_payloads(msg_views(ms).take(i + 1), d), n)
                                    =~~= full_batches(dp(d), n));
                            } else {
                                assert(dest_payloads(msg_views(ms).take(i + 1), d) =~~= dp(d));
                            }
                        }
                        assert forall|d: Seq<char>| true implies #[trigger] self.buffer_of(d)
                            == pending_tail(dest_payloads(msg_views(ms).take(i + 1), d), n) by {
                            lemma_dest_step(msg_views(ms).take(i), mv, d);
                            if d == key {
                                assert(self.buffer_of(d) =~~= pending_tail(
                                    dest_payloads(msg_views(ms).take(i + 1), d),
                                    n,
                                ));
                            }
                        }
                    }
                },
            }
            proof {
                i = i + 1;
            }
        }
        proof {
            assert(ms.skip(i).len() == 0);
            assert(i == ms.len());
            assert(msg_views(ms).take(i) =~= msg_views(ms));
        }
        let ghost closed_pre = *self;
        let ghost out_mid = flush_views(out@);
        let mut drained = self.handle_close();
        let ghost drained_v = flush_views(drained@);
        out.append(&mut drained);
        proof {
            assert(flush_views(out@) =~= out_mid + drained_v);
            assert forall|d: Seq<char>| true implies #[trigger] flushes_to(flush_views(out@), d)
                =~~= flushes_for(dest_payloads(msg_views(msgs@), d), n, base, d) by {
                let p = dest_payloads(msg_views(ms), d);
                let pred = |f: FlushView| f.index_id == d;
                Seq::<FlushView>::filter_distributes_over_add(out_mid, drained_v, pred);
                assert(flushes_to(flush_views(out@), d) == flushes_to(out_mid, d) + flushes_to(
                    drained_v,
                    d,
                ));
                assert(closed_pre.buffer_of(d) == pending_tail(p, n));
                if pending_tail(p, n).len() > 0 {
                    assert(flushes_to(drained_v, d) =~= seq![
                        FlushView {
                            index_id: d,
                            url: ingest_url(base, d),
                            body: ndjson_of(pending_tail(p, n)),
                        },
                    ]);
                    assert(batches_of(p, n) == full_batches(p, n) + seq![pending_tail(p, n)]);
                    assert(flushes_for(p, n, base, d) =~~= full_batches(p, n).map_values(
                        |b: Seq<Seq<(Seq<char>, LogValueV)>>| flush_of_batch(b, base, d),
                    ) + seq![flush_of_batch(pending_tail(p, n), base, d)]);
                } else {
                    assert(flushes_to(drained_v, d) =~= Seq::<FlushView>::empty());
                    assert(batches_of(p, n) == full_batches(p, n) + Seq::<
                        Seq<Seq<(Seq<char>, LogValueV)>>,
                    >::empty());
                    assert(batches_of(p, n) =~~= full_batches(p, n));
                    assert(flushes_for(p, n, base, d) =~~= full_batches(p, n).map_values(
                        |b: Seq<Seq<(Seq<char>, LogValueV)>>| flush_of_batch(b, base, d),
                    ));
                }
            }
        }
        out
    }
}

} // verus!
