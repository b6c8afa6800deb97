use vstd::prelude::*;

use crate::level::Level;
use crate::record::LogStashRecord;

verus! {

/// Flush policy of a dispatch engine; fixed for the engine's lifetime.
///
/// `buffer_size` is the batch size that triggers a drain (no batching when
/// absent), `buffer_lifetime` the longest time a batch may wait, in the
/// caller's clock units, and records at least as severe as `ignore_buffer`
/// skip batching.
#[derive(Clone, Copy, Debug)]
pub struct Policy {
    pub buffer_size: Option<usize>,
    pub buffer_lifetime: Option<u64>,
    pub ignore_buffer: Level,
}

/// One call made on the downstream sender.
pub enum Delivery {
    One(LogStashRecord),
    Many(Seq<LogStashRecord>),
    Flush,
}

/// Abstract state of a dispatch engine: the pending batch, the deadline at
/// which it is drained, and every call made on the sender so far, in order.
pub struct DispatchState {
    pub batch: Seq<LogStashRecord>,
    pub deadline: Option<u64>,
    pub trace: Seq<Delivery>,
}

/// The records a delivery hands to the sender.
pub open spec fn delivery_records(d: Delivery) -> Seq<LogStashRecord> {
    match d {
        Delivery::One(r) => seq![r],
        Delivery::Many(rs) => rs,
        Delivery::Flush => Seq::empty(),
    }
}

/// All records handed to the sender by a sequence of calls, in order.
pub open spec fn delivered(trace: Seq<Delivery>) -> Seq<LogStashRecord>
    decreases trace.len(),
{
    if trace.len() == 0 {
        Seq::empty()
    } else {
        delivered(trace.drop_last()) + delivery_records(trace.last())
    }
}

/// The record skips batching under policy `p`.
pub open spec fn bypasses(p: Policy, r: LogStashRecord) -> bool {
    r.level.rank() >= p.ignore_buffer.rank()
}

/// `a + b`, or `u64::MAX` where the sum does not fit.
pub open spec fn saturating_add(a: u64, b: u64) -> u64 {
    if a + b > u64::MAX {
        u64::MAX
    } else {
        (a + b) as u64
    }
}

/// Drain: the pending batch, if any, goes out as one call, then the sender
/// is flushed; the batch is emptied and the deadline cleared.
pub open spec fn drain_spec(s: DispatchState) -> DispatchState {
    DispatchState {
        batch: Seq::empty(),
        deadline: None,
        trace: if s.batch.len() > 0 {
            s.trace.push(Delivery::Many(s.batch)).push(Delivery::Flush)
        } else {
            s.trace.push(Delivery::Flush)
        },
    }
}

/// Accepting one record.
pub open spec fn accept_spec(p: Policy, s: DispatchState, r: LogStashRecord) -> DispatchState {
    if bypasses(p, r) {
        DispatchState { trace: s.trace.push(Delivery::One(r)), ..s }
    } else {
        match p.buffer_size {
            Some(n) => {
                let b = s.batch.push(r);
                if b.len() >= n {
                    drain_spec(DispatchState { batch: b, ..s })
                } else {
                    DispatchState { batch: b, ..s }
                }
            },
            None => DispatchState { trace: s.trace.push(Delivery::One(r)), ..s },
        }
    }
}

/// Accepting records one after the other, in order.
pub open spec fn accept_all_spec(p: Policy, s: DispatchState, rs: Seq<LogStashRecord>) -> DispatchState
    decreases rs.len(),
{
    if rs.len() == 0 {
        s
    } else {
        accept_spec(p, accept_all_spec(p, s, rs.drop_last()), rs.last())
    }
}

/// The deadline once records arrive at time `now`: an empty batch starts a
/// new window when both a size and a lifetime are configured, and has no
/// deadline otherwise; a batch already pending keeps its deadline.
pub open spec fn rearm_spec(p: Policy, s: DispatchState, now: u64) -> DispatchState {
    if s.batch.len() == 0 {
        DispatchState {
            deadline: match (p.buffer_size, p.buffer_lifetime) {
                (Some(_), Some(lt)) => Some(saturating_add(now, lt)),
                _ => None,
            },
            ..s
        }
    } else {
        s
    }
}

/// Time left until `deadline`, clamped at zero; `None` when there is none.
pub open spec fn timeout_spec(deadline: Option<u64>, now: u64) -> Option<u64> {
    match deadline {
        Some(d) => Some(if d >= now { (d - now) as u64 } else { 0 }),
        None => None,
    }
}

/// The batch is within the bounds the policy allows between commands.
pub open spec fn batch_ok(p: Policy, batch: Seq<LogStashRecord>) -> bool {
    match p.buffer_size {
        Some(n) => batch.len() < n || batch.len() == 0,
        None => batch.len() == 0,
    }
}

/// A deadline is only ever set when both a size limit and a lifetime are
/// configured.
pub open spec fn deadline_ok(p: Policy, deadline: Option<u64>) -> bool {
    deadline is Some ==> (p.buffer_size is Some && p.buffer_lifetime is Some)
}

/// Every pending record is below the bypass threshold.
pub open spec fn batch_below(p: Policy, batch: Seq<LogStashRecord>) -> bool {
    forall|i: int| 0 <= i < batch.len() ==> !bypasses(p, #[trigger] batch[i])
}

pub proof fn lemma_delivered_push(t: Seq<Delivery>, d: Delivery)
    ensures
        delivered(t.push(d)) == delivered(t) + delivery_records(d),
{
    assert(t.push(d).drop_last() =~= t);
}

pub proof fn lemma_prefix_push<T>(a: Seq<T>, b: Seq<T>, x: T)
    requires
        a.is_prefix_of(b),
    ensures
        a.is_prefix_of(b.push(x)),
{
    assert(a =~= b.push(x).subrange(0, a.len() as int));
}

pub proof fn lemma_prefix_trans<T>(a: Seq<T>, b: Seq<T>, c: Seq<T>)
    requires
        a.is_prefix_of(b),
        b.is_prefix_of(c),
    ensures
        a.is_prefix_of(c),
        forall|i: int| 0 <= i < b.len() ==> #[trigger] c[i] == b[i],
{
    assert(a =~= c.subrange(0, a.len() as int));
    assert forall|i: int| 0 <= i < b.len() implies #[trigger] c[i] == b[i] by {
        assert(b[i] == c.subrange(0, b.len() as int)[i]);
    }
}

pub proof fn lemma_prefix_refl<T>(a: Seq<T>)
    ensures
        a.is_prefix_of(a),
{
    assert(a =~= a.subrange(0, a.len() as int));
}

} // verus!
