use vstd::prelude::*;

use crate::buffer::{step_spec, Command, Received};
use crate::model::{
    accept_all_spec, accept_spec, batch_below, bypasses, delivered, drain_spec,
    lemma_delivered_push, lemma_prefix_trans, rearm_spec, timeout_spec, Delivery, DispatchState, Policy,
};
use crate::record::LogStashRecord;

verus! {

/// With a size limit `n`, records below the bypass threshold leave in full
/// batches of exactly `n` records, each followed by a flush, and in arrival
/// order; what is left waits in the batch, and a later drain sends it as one
/// short batch.
pub proof fn lemma_full_batches(p: Policy, s: DispatchState, rs: Seq<LogStashRecord>, n: usize)
    requires
        p.buffer_size == Some(n),
        n >= 1,
        s.batch.len() < n,
        forall|i: int| 0 <= i < rs.len() ==> !bypasses(p, #[trigger] rs[i]),
    ensures
        ({
            let t = accept_all_spec(p, s, rs);
            &&& t.batch.len() < n
            &&& s.trace.is_prefix_of(t.trace)
            &&& forall|i: int|
                s.trace.len() <= i < t.trace.len() ==> (#[trigger] t.trace[i] matches Delivery::Many(b)
                    ==> b.len() == n)
            &&& forall|i: int|
                s.trace.len() <= i < t.trace.len() ==> (#[trigger] t.trace[i] is Many || t.trace[i] is Flush)
            &&& delivered(s.trace) + s.batch + rs == delivered(t.trace) + t.batch
            &&& t.batch.len() > 0 ==> drain_spec(t).trace == t.trace.push(Delivery::Many(t.batch)).push(
                Delivery::Flush,
            )
        }),
    decreases rs.len(),
{
    let t = accept_all_spec(p, s, rs);
    if rs.len() == 0 {
        assert(s.trace =~= s.trace.subrange(0, s.trace.len() as int));
        assert(s.batch + rs =~= s.batch);
    } else {
        let rest = rs.drop_last();
        let r = rs.last();
        lemma_full_batches(p, s, rest, n);
        let u = accept_all_spec(p, s, rest);
        assert(t == accept_spec(p, u, r));
        let b = u.batch.push(r);
        assert(s.batch + rs =~= s.batch + rest + seq![r]);
        if b.len() >= n {
            lemma_delivered_push(u.trace, Delivery::Many(b));
            lemma_delivered_push(u.trace.push(Delivery::Many(b)), Delivery::Flush);
            assert(delivered(u.trace) + u.batch + seq![r] =~= delivered(u.trace) + b);
            assert(delivered(t.trace) + t.batch =~= delivered(u.trace) + b);
            assert(s.trace =~= t.trace.subrange(0, s.trace.len() as int));
            assert forall|i: int| s.trace.len() <= i < t.trace.len() implies (#[trigger] t.trace[i] is Many
                || t.trace[i] is Flush) && (t.trace[i] matches Delivery::Many(c) ==> c.len() == n) by {
                if i < u.trace.len() {
                    assert(t.trace[i] == u.trace[i]);
                }
            }
        } else {
            assert(delivered(u.trace) + u.batch + seq![r] =~= delivered(u.trace) + b);
        }
    }
}

/// A record at or above the bypass threshold goes out on its own, at once,
/// and the pending batch is left as it was.
pub proof fn lemma_bypass_sent_alone(p: Policy, s: DispatchState, r: LogStashRecord)
    requires
        bypasses(p, r),
    ensures
        accept_spec(p, s, r) == (DispatchState { trace: s.trace.push(Delivery::One(r)), ..s }),
{
}

/// Without a size limit nothing is buffered: each record goes out on its
/// own, in order, whatever its severity.
pub proof fn lemma_unbuffered(p: Policy, s: DispatchState, rs: Seq<LogStashRecord>)
    requires
        p.buffer_size is None,
    ensures
        accept_all_spec(p, s, rs) == (DispatchState {
            trace: s.trace + rs.map_values(|r: LogStashRecord| Delivery::One(r)),
            ..s
        }),
    decreases rs.len(),
{
    if rs.len() == 0 {
        assert(s.trace + rs.map_values(|r: LogStashRecord| Delivery::One(r)) =~= s.trace);
    } else {
        lemma_unbuffered(p, s, rs.drop_last());
        assert(s.trace + rs.map_values(|r: LogStashRecord| Delivery::One(r)) =~= (s.trace
            + rs.drop_last().map_values(|r: LogStashRecord| Delivery::One(r))).push(
            Delivery::One(rs.last()),
        ));
    }
}

/// A flush with nothing pending still flushes the sender, and hands it no
/// batch.
pub proof fn lemma_flush_empty(p: Policy, s: DispatchState, now: u64)
    requires
        s.batch.len() == 0,
    ensures
        step_spec(p, s, Received::Command(Command::Flush), now).trace == s.trace.push(Delivery::Flush),
        step_spec(p, s, Received::Timeout, now).trace == s.trace.push(Delivery::Flush),
{
}

/// With a size limit above two and a lifetime `lt`, two records that arrive
/// at an empty batch at `t0` and `t1` wait until `t0 + lt`; a timeout then
/// drains them together, though the size limit was never reached.
pub proof fn lemma_lifetime_drain(
    p: Policy,
    s: DispatchState,
    r1: LogStashRecord,
    r2: LogStashRecord,
    t0: u64,
    t1: u64,
    t2: u64,
    lt: u64,
    n: usize,
)
    requires
        p.buffer_size == Some(n),
        n > 2,
        p.buffer_lifetime == Some(lt),
        t0 + lt <= u64::MAX,
        s.batch.len() == 0,
        !bypasses(p, r1),
        !bypasses(p, r2),
    ensures
        ({
            let s1 = step_spec(p, s, Received::Command(Command::Send(r1)), t0);
            let s2 = step_spec(p, s1, Received::Command(Command::Send(r2)), t1);
            &&& s2.batch == seq![r1, r2]
            &&& s2.trace == s.trace
            &&& s2.deadline == Some((t0 + lt) as u64)
            &&& t2 >= t0 + lt ==> timeout_spec(s2.deadline, t2) == Some(0u64)
            &&& step_spec(p, s2, Received::Timeout, t2).trace == s.trace.push(
                Delivery::Many(seq![r1, r2]),
            ).push(Delivery::Flush)
        }),
{
    let s1 = step_spec(p, s, Received::Command(Command::Send(r1)), t0);
    assert(s1.batch =~= seq![r1]);
    let s2 = step_spec(p, s1, Received::Command(Command::Send(r2)), t1);
    assert(s2.batch =~= seq![r1, r2]);
}

/// When every producer is gone the worker stops as it is: no drain and no
/// call on the sender.
pub proof fn lemma_close_no_drain(p: Policy, s: DispatchState, now: u64)
    ensures
        step_spec(p, s, Received::Disconnected, now) == s,
{
}

/// The records that batching applies to under policy `p`.
pub open spec fn batched(p: Policy) -> spec_fn(LogStashRecord) -> bool {
    |r: LogStashRecord| !bypasses(p, r)
}

/// The records that skip batching under policy `p`.
pub open spec fn urgent(p: Policy) -> spec_fn(LogStashRecord) -> bool {
    |r: LogStashRecord| bypasses(p, r)
}

proof fn lemma_filter_batch(p: Policy, b: Seq<LogStashRecord>)
    requires
        batch_below(p, b),
    ensures
        b.filter(batched(p)) == b,
        b.filter(urgent(p)) == Seq::<LogStashRecord>::empty(),
    decreases b.len(),
{
    reveal(Seq::filter);
    if b.len() > 0 {
        assert(!bypasses(p, b[b.len() - 1]));
        lemma_filter_batch(p, b.drop_last());
        assert(b.drop_last().push(b.last()) =~= b);
    } else {
        assert(b.filter(urgent(p)) =~= Seq::<LogStashRecord>::empty());
    }
}

/// Interleaving urgent and batched records keeps each kind in arrival
/// order: batched records reach the sender, or wait in the batch, in the
/// order they were accepted, and urgent ones reach it in the order they
/// were accepted.
pub proof fn lemma_order_kept(p: Policy, s: DispatchState, rs: Seq<LogStashRecord>, n: usize)
    requires
        p.buffer_size == Some(n),
        n >= 1,
        s.batch.len() < n,
        batch_below(p, s.batch),
    ensures
        ({
            let t = accept_all_spec(p, s, rs);
            &&& delivered(t.trace).filter(batched(p)) + t.batch == delivered(s.trace).filter(batched(p))
                + s.batch + rs.filter(batched(p))
            &&& delivered(t.trace).filter(urgent(p)) == delivered(s.trace).filter(urgent(p)) + rs.filter(
                urgent(p),
            )
            &&& t.batch.len() < n
            &&& batch_below(p, t.batch)
        }),
    decreases rs.len(),
{
    let t = accept_all_spec(p, s, rs);
    if rs.len() == 0 {
        reveal(Seq::filter);
        assert(delivered(s.trace).filter(batched(p)) + s.batch + rs.filter(batched(p))
            =~= delivered(s.trace).filter(batched(p)) + s.batch);
        assert(delivered(s.trace).filter(urgent(p)) + rs.filter(urgent(p)) =~= delivered(s.trace).filter(
            urgent(p),
        ));
    } else {
        let rest = rs.drop_last();
        let r = rs.last();
        lemma_order_kept(p, s, rest, n);
        let u = accept_all_spec(p, s, rest);
        assert(t == accept_spec(p, u, r));
        assert(rest.push(r) =~= rs);
        rest.lemma_filter_push(r, batched(p));
        rest.lemma_filter_push(r, urgent(p));
        let du = delivered(u.trace);
        if bypasses(p, r) {
            lemma_delivered_push(u.trace, Delivery::One(r));
            Seq::filter_distributes_over_add(du, seq![r], batched(p));
            Seq::filter_distributes_over_add(du, seq![r], urgent(p));
            let e = Seq::<LogStashRecord>::empty();
            assert(e.push(r) =~= seq![r]);
            e.lemma_filter_push(r, batched(p));
            e.lemma_filter_push(r, urgent(p));
            reveal(Seq::filter);
            assert(e.filter(batched(p)) =~= e);
            assert(e.filter(urgent(p)) =~= e);
            assert(seq![r].filter(batched(p)) =~= Seq::<LogStashRecord>::empty());
            assert(seq![r].filter(urgent(p)) =~= seq![r]);
            assert(du.filter(batched(p)) + Seq::<LogStashRecord>::empty() =~= du.filter(batched(p)));
            assert(delivered(s.trace).filter(urgent(p)) + rs.filter(urgent(p)) =~= delivered(
                s.trace,
            ).filter(urgent(p)) + rest.filter(urgent(p)) + seq![r]);
        } else {
            let b = u.batch.push(r);
            assert(batch_below(p, b)) by {
                assert forall|i: int| 0 <= i < b.len() implies !bypasses(p, #[trigger] b[i]) by {
                    if i < u.batch.len() {
                        assert(b[i] == u.batch[i]);
                    }
                }
            }
            assert(delivered(s.trace).filter(batched(p)) + s.batch + rs.filter(batched(p))
                =~= delivered(s.trace).filter(batched(p)) + s.batch + rest.filter(batched(p)) + seq![r]);
            if b.len() >= n {
                lemma_delivered_push(u.trace, Delivery::Many(b));
                lemma_delivered_push(u.trace.push(Delivery::Many(b)), Delivery::Flush);
                assert(delivered(t.trace) =~= du + b);
                Seq::filter_distributes_over_add(du, b, batched(p));
                Seq::filter_distributes_over_add(du, b, urgent(p));
                lemma_filter_batch(p, b);
                assert(du.filter(urgent(p)) + Seq::<LogStashRecord>::empty() =~= du.filter(urgent(p)));
                assert(du.filter(batched(p)) + b + Seq::<LogStashRecord>::empty() =~= du.filter(batched(p)) + u.batch + seq![r]);
                assert(t.batch =~= Seq::<LogStashRecord>::empty());
            } else {
                assert(du.filter(batched(p)) + b =~= du.filter(batched(p)) + u.batch + seq![r]);
            }
        }
    }
}

/// The records that a received message brings.
pub open spec fn msg_records(msg: Received) -> Seq<LogStashRecord> {
    match msg {
        Received::Command(Command::Send(r)) => seq![r],
        Received::Command(Command::SendBatch(rs)) => rs@,
        _ => Seq::empty(),
    }
}

/// A message that brings records.
pub open spec fn is_record_command(msg: Received) -> bool {
    msg matches Received::Command(Command::Send(_)) || msg matches Received::Command(
        Command::SendBatch(_),
    )
}

/// The state after successful steps on `msgs`, the `i`-th at time `nows[i]`.
pub open spec fn run_spec(p: Policy, s: DispatchState, msgs: Seq<Received>, nows: Seq<u64>) -> DispatchState
    decreases msgs.len(),
{
    if msgs.len() == 0 || nows.len() != msgs.len() {
        s
    } else {
        step_spec(p, run_spec(p, s, msgs.drop_last(), nows.drop_last()), msgs.last(), nows.last())
    }
}

/// All records that `msgs` bring, in order.
pub open spec fn run_records(msgs: Seq<Received>) -> Seq<LogStashRecord>
    decreases msgs.len(),
{
    if msgs.len() == 0 {
        Seq::empty()
    } else {
        run_records(msgs.drop_last()) + msg_records(msgs.last())
    }
}

/// Over any run of record commands below the bypass threshold, with no
/// flush and no timeout, the sender sees only full batches of exactly `n`
/// records, each followed by a flush, in arrival order; fewer than `n`
/// records are left waiting.
pub proof fn lemma_full_batches_run(
    p: Policy,
    s: DispatchState,
    msgs: Seq<Received>,
    nows: Seq<u64>,
    n: usize,
)
    requires
        p.buffer_size == Some(n),
        n >= 1,
        s.batch.len() < n,
        nows.len() == msgs.len(),
        forall|i: int| 0 <= i < msgs.len() ==> is_record_command(#[trigger] msgs[i]),
        forall|i: int|
            0 <= i < run_records(msgs).len() ==> !bypasses(p, #[trigger] run_records(msgs)[i]),
    ensures
        ({
            let t = run_spec(p, s, msgs, nows);
            &&& t.batch.len() < n
            &&& s.trace.is_prefix_of(t.trace)
            &&& forall|i: int|
                s.trace.len() <= i < t.trace.len() ==> (#[trigger] t.trace[i] matches Delivery::Many(b)
                    ==> b.len() == n)
            &&& forall|i: int|
                s.trace.len() <= i < t.trace.len() ==> (#[trigger] t.trace[i] is Many || t.trace[i] is Flush)
            &&& delivered(s.trace) + s.batch + run_records(msgs) == delivered(t.trace) + t.batch
        }),
    decreases msgs.len(),
{
    let t = run_spec(p, s, msgs, nows);
    if msgs.len() == 0 {
        assert(s.trace =~= s.trace.subrange(0, s.trace.len() as int));
        assert(s.batch + run_records(msgs) =~= s.batch);
    } else {
        let front = msgs.drop_last();
        let m = msgs.last();
        let rest = run_records(front);
        let last = msg_records(m);
        assert(run_records(msgs) == rest + last);
        assert forall|i: int| 0 <= i < front.len() implies is_record_command(#[trigger] front[i]) by {
            assert(front[i] == msgs[i]);
        }
        assert forall|i: int| 0 <= i < rest.len() implies !bypasses(p, #[trigger] rest[i]) by {
            assert(run_records(msgs)[i] == rest[i]);
        }
        assert forall|i: int| 0 <= i < last.len() implies !bypasses(p, #[trigger] last[i]) by {
            assert(run_records(msgs)[rest.len() + i] == last[i]);
        }
        lemma_full_batches_run(p, s, front, nows.drop_last(), n);
        let u = run_spec(p, s, front, nows.drop_last());
        let v = rearm_spec(p, u, nows.last());
        assert(is_record_command(msgs[msgs.len() - 1]));
        if let Received::Command(Command::Send(r)) = m {
            assert(last =~= seq![r]);
            assert(seq![r].drop_last() =~= Seq::<LogStashRecord>::empty());
            assert(accept_all_spec(p, v, Seq::<LogStashRecord>::empty()) == v);
            assert(seq![r].last() == r);
            assert(accept_all_spec(p, v, seq![r]) == accept_spec(p, v, r));
        }
        assert(t == accept_all_spec(p, v, last));
        lemma_full_batches(p, v, last, n);
        lemma_prefix_trans(s.trace, u.trace, t.trace);
        assert forall|i: int| s.trace.len() <= i < t.trace.len() implies (#[trigger] t.trace[i] is Many
            || t.trace[i] is Flush) && (t.trace[i] matches Delivery::Many(c) ==> c.len() == n) by {
            if i < u.trace.len() {
                assert(t.trace[i] == u.trace[i]);
            }
        }
        assert(delivered(s.trace) + s.batch + run_records(msgs) =~= delivered(s.trace) + s.batch + rest
            + last);
        assert(delivered(u.trace) + u.batch + last =~= delivered(s.trace) + s.batch + rest + last);
    }
}

} // verus!
