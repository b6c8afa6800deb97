use vstd::prelude::*;

use crate::error::Error;
use crate::level::Level;
use crate::model::{
    accept_all_spec, accept_spec, batch_below, batch_ok, deadline_ok, drain_spec, lemma_prefix_push, lemma_prefix_refl,
    lemma_prefix_trans, rearm_spec, timeout_spec, Delivery, DispatchState, Policy,
};
use crate::record::LogStashRecord;

verus! {

/// A downstream consumer of records, such as a network connection to a
/// collector.
///
/// `sent` is the history of calls made on the sender, oldest first; each
/// call is recorded whether it succeeds or not. The engine's contracts speak
/// of what it hands to its sender through this history.
pub trait Sender {
    /// Every call made on this sender so far, in order. An implementation
    /// checked by Verus gives its own history; the default only lets plain
    /// Rust implementations, which Verus does not check, leave it out.
    closed spec fn sent(&self) -> Seq<Delivery> {
        Seq::empty()
    }

    /// Transmits one record.
    fn send(&mut self, event: LogStashRecord) -> (r: Result<(), Error>)
        ensures
            final(self).sent() == old(self).sent().push(Delivery::One(event)),
    ;

    /// Transmits records, in order, as one logical write.
    fn send_batch(&mut self, events: Vec<LogStashRecord>) -> (r: Result<(), Error>)
        ensures
            final(self).sent() == old(self).sent().push(Delivery::Many(events@)),
    ;

    /// Forces out whatever the sender holds back.
    fn flush(&mut self) -> (r: Result<(), Error>)
        ensures
            final(self).sent() == old(self).sent().push(Delivery::Flush),
    ;
}

/// A request from a producer to the dispatch engine.
#[derive(Clone, Debug)]
pub enum Command {
    Send(LogStashRecord),
    SendBatch(Vec<LogStashRecord>),
    Flush,
}

/// What the engine's wait for the next command came back with.
#[derive(Clone, Debug)]
pub enum Received {
    Command(Command),
    /// The deadline passed with no command.
    Timeout,
    /// Every producer is gone; no command will come.
    Disconnected,
}

/// What the worker does after one step of the engine.
#[derive(Clone, Debug)]
pub enum Flow {
    /// The step succeeded: wait for the next command.
    Continue,
    /// The step failed with an error that is reported and then ignored.
    Recovered(Error),
    /// The channel is closed: stop.
    Stopped,
    /// The step failed with a fatal error: report it and stop.
    Failed(Error),
}

/// One step of the engine on a received message, when every call on the
/// sender succeeds.
pub open spec fn step_spec(p: Policy, s: DispatchState, msg: Received, now: u64) -> DispatchState {
    match msg {
        Received::Command(Command::Send(r)) => accept_spec(p, rearm_spec(p, s, now), r),
        Received::Command(Command::SendBatch(rs)) => accept_all_spec(p, rearm_spec(p, s, now), rs@),
        Received::Command(Command::Flush) => drain_spec(s),
        Received::Timeout => drain_spec(s),
        Received::Disconnected => s,
    }
}

/// Accepting `rs` from state `s` failed at record `k`: the records before it
/// were accepted, record `k` was handled with at least one call on the
/// sender, and no later record was looked at.
pub open spec fn failed_at(
    p: Policy,
    s: DispatchState,
    rs: Seq<LogStashRecord>,
    k: int,
    f: DispatchState,
) -> bool {
    let upto = accept_all_spec(p, s, rs.take(k + 1));
    &&& f.batch == upto.batch
    &&& f.deadline == upto.deadline
    &&& f.trace.is_prefix_of(upto.trace)
    &&& f.trace.len() > accept_all_spec(p, s, rs.take(k)).trace.len()
}

/// For a batch command, the step failed at one of its records (see
/// [`failed_at`]); holds of any other message.
pub open spec fn batch_failed(p: Policy, s: DispatchState, msg: Received, now: u64, f: DispatchState) -> bool {
    match msg {
        Received::Command(Command::SendBatch(rs)) => exists|k: int|
            0 <= k < rs@.len() && #[trigger] failed_at(p, rearm_spec(p, s, now), rs@, k, f),
        _ => true,
    }
}

/// The flow after a step whose sender calls ended with `res`.
pub fn flow_of(res: Result<(), Error>) -> (r: Flow)
    ensures
        res is Ok ==> r is Continue,
        res matches Err(e) ==> (if e.fatal() {
            r == Flow::Failed(e)
        } else {
            r == Flow::Recovered(e)
        }),
{
    match res {
        Ok(()) => Flow::Continue,
        Err(e) => {
            if e.is_fatal() {
                Flow::Failed(e)
            } else {
                Flow::Recovered(e)
            }
        },
    }
}

pub proof fn lemma_accept_extends(p: Policy, s: DispatchState, r: LogStashRecord)
    ensures
        s.trace.is_prefix_of(accept_spec(p, s, r).trace),
{
    lemma_prefix_refl(s.trace);
    lemma_prefix_push(s.trace, s.trace, Delivery::One(r));
    let b = s.batch.push(r);
    lemma_prefix_push(s.trace, s.trace, Delivery::Many(b));
    lemma_prefix_push(s.trace, s.trace, Delivery::Flush);
    lemma_prefix_push(s.trace, s.trace.push(Delivery::Many(b)), Delivery::Flush);
}

pub proof fn lemma_accept_all_extends(p: Policy, s: DispatchState, rs: Seq<LogStashRecord>, i: int)
    requires
        0 <= i <= rs.len(),
    ensures
        accept_all_spec(p, s, rs.take(i)).trace.is_prefix_of(accept_all_spec(p, s, rs).trace),
    decreases rs.len(),
{
    if i == rs.len() {
        assert(rs.take(i) =~= rs);
        lemma_prefix_refl(accept_all_spec(p, s, rs).trace);
    } else {
        lemma_accept_all_extends(p, s, rs.drop_last(), i);
        assert(rs.drop_last().take(i) =~= rs.take(i));
        lemma_accept_extends(p, accept_all_spec(p, s, rs.drop_last()), rs.last());
        lemma_prefix_trans(
            accept_all_spec(p, s, rs.take(i)).trace,
            accept_all_spec(p, s, rs.drop_last()).trace,
            accept_all_spec(p, s, rs).trace,
        );
    }
}

/// The single-consumer dispatch engine: it owns the pending batch and the
/// sender, and decides for each command when records go downstream.
pub struct DispatchEngine<S: Sender> {
    sender: S,
    buffer: Vec<LogStashRecord>,
    policy: Policy,
    deadline: Option<u64>,
}

impl<S: Sender> DispatchEngine<S> {
    /// The engine's abstract state.
    pub closed spec fn state(&self) -> DispatchState {
        DispatchState { batch: self.buffer@, deadline: self.deadline, trace: self.sender.sent() }
    }

    /// The sender the engine owns.
    pub closed spec fn downstream(&self) -> S {
        self.sender
    }

    /// The engine's flush policy.
    pub closed spec fn policy(&self) -> Policy {
        self.policy
    }

    /// The pending batch never reaches the size limit between commands, is
    /// always empty when no size limit is configured, and holds only records
    /// below the bypass threshold; a deadline is set only when both a size
    /// limit and a lifetime are configured. The trace is the sender's own
    /// history of calls.
    pub open spec fn wf(&self) -> bool {
        &&& batch_ok(self.policy(), self.state().batch)
        &&& batch_below(self.policy(), self.state().batch)
        &&& deadline_ok(self.policy(), self.state().deadline)
        &&& self.state().trace == self.downstream().sent()
    }

    /// An engine that owns `sender`, with an empty batch and no deadline.
    pub fn new(
        sender: S,
        buffer_size: Option<usize>,
        buffer_lifetime: Option<u64>,
        ignore_buffer: Level,
    ) -> (r: Self)
        ensures
            r.wf(),
            r.policy() == (Policy { buffer_size, buffer_lifetime, ignore_buffer }),
            r.state().batch.len() == 0,
            r.state().deadline is None,
            r.state().trace == sender.sent(),
            r.downstream() == sender,
    {
        let capacity: usize = match buffer_size {
            Some(n) => n,
            None => 0,
        };
        DispatchEngine {
            sender,
            buffer: Vec::with_capacity(capacity),
            policy: Policy { buffer_size, buffer_lifetime, ignore_buffer },
            deadline: None,
        }
    }

    /// The sender the engine hands records to.
    pub fn sender(&self) -> (r: &S)
        ensures
            *r == self.downstream(),
    {
        &self.sender
    }

    /// Number of records waiting in the batch.
    pub fn buffered_len(&self) -> (r: usize)
        ensures
            r == self.state().batch.len(),
    {
        self.buffer.len()
    }

    /// The instant at which the pending batch is drained, if any.
    pub fn deadline(&self) -> (r: Option<u64>)
        ensures
            r == self.state().deadline,
    {
        self.deadline
    }

    /// How long to wait for the next command at time `now`: the time left
    /// until the deadline, clamped at zero, or `None` to wait indefinitely.
    pub fn wait_timeout(&self, now: u64) -> (r: Option<u64>)
        ensures
            r == timeout_spec(self.state().deadline, now),
    {
        match self.deadline {
            Some(d) => Some(if d >= now { d - now } else { 0 }),
            None => None,
        }
    }

    /// Recomputes the deadline as records arrive at time `now`.
    fn next_deadline(&mut self, now: u64)
        requires
            old(self).wf(),
        ensures
            final(self).wf(),
            final(self).policy() == old(self).policy(),
            final(self).state() == rearm_spec(old(self).policy(), old(self).state(), now),
    {
        if self.buffer.len() == 0 {
            self.deadline = match (self.policy.buffer_size, self.policy.buffer_lifetime) {
                (Some(_), Some(lt)) => Some(if lt > u64::MAX - now { u64::MAX } else { now + lt }),
                _ => None,
            };
        }
    }

    /// Drains the batch: hands it to the sender if it is not empty, then
    /// flushes the sender. The batch is dropped even where the sender fails.
    pub fn flush(&mut self) -> (r: Result<(), Error>)
        ensures
            final(self).wf(),
            final(self).state().trace.len() > old(self).state().trace.len(),
            final(self).policy() == old(self).policy(),
            r is Ok ==> final(self).state() == drain_spec(old(self).state()),
            final(self).state().batch.len() == 0,
            final(self).state().deadline is None,
            old(self).state().trace.is_prefix_of(final(self).state().trace),
            final(self).state().trace.is_prefix_of(drain_spec(old(self).state()).trace),
    {
        let ghost s0 = self.state();
        proof {
            lemma_prefix_refl(s0.trace);
        }
        self.deadline = None;
        if self.buffer.len() > 0 {
            let capacity: usize = match self.policy.buffer_size {
                Some(n) => n,
                None => 0,
            };
            let mut batch: Vec<LogStashRecord> = Vec::with_capacity(capacity);
            std::mem::swap(&mut self.buffer, &mut batch);
            proof {
                let t = s0.trace.push(Delivery::Many(s0.batch));
                lemma_prefix_push(s0.trace, s0.trace, Delivery::Many(s0.batch));
                lemma_prefix_refl(t);
                lemma_prefix_push(t, t, Delivery::Flush);
            }
            match self.sender.send_batch(batch) {
                Ok(()) => {},
                Err(e) => {
                    return Err(e);
                },
            }
        }
        let ghost t1 = self.sender.sent();
        proof {
            lemma_prefix_push(s0.trace, t1, Delivery::Flush);
            lemma_prefix_refl(t1.push(Delivery::Flush));
            assert(self.buffer@ =~= Seq::<LogStashRecord>::empty());
        }
        self.sender.flush()
    }

    /// Accepts one record: a record at or above the bypass threshold, or any
    /// record when no size limit is configured, goes straight to the sender;
    /// any other joins the batch, which is drained once it reaches the limit.
    pub fn send(&mut self, event: LogStashRecord) -> (r: Result<(), Error>)
        requires
            old(self).wf(),
        ensures
            final(self).wf(),
            final(self).policy() == old(self).policy(),
            final(self).state().batch == accept_spec(old(self).policy(), old(self).state(), event).batch,
            final(self).state().deadline == accept_spec(old(self).policy(), old(self).state(), event).deadline,
            r is Err ==> final(self).state().trace.len() > old(self).state().trace.len(),
            r is Ok ==> final(self).state() == accept_spec(old(self).policy(), old(self).state(), event),
            accept_spec(old(self).policy(), old(self).state(), event).trace.len()
                == old(self).state().trace.len() ==> r is Ok,
            old(self).state().trace.is_prefix_of(final(self).state().trace),
            final(self).state().trace.is_prefix_of(
                accept_spec(old(self).policy(), old(self).state(), event).trace,
            ),
    {
        let ghost s0 = self.state();
        proof {
            lemma_prefix_refl(s0.trace);
            lemma_prefix_push(s0.trace, s0.trace, Delivery::One(event));
            lemma_prefix_refl(s0.trace.push(Delivery::One(event)));
        }
        if event.level.at_least(&self.policy.ignore_buffer) {
            self.sender.send(event)
        } else {
            match self.policy.buffer_size {
                Some(max_size) => {
                    self.buffer.push(event);
                    if self.buffer.len() >= max_size {
                        let res = self.flush();
                        proof {
                            lemma_prefix_refl(self.sender.sent());
                        }
                        res
                    } else {
                        proof {
                            lemma_prefix_refl(self.sender.sent());
                        }
                        Ok(())
                    }
                },
                None => {
                            self.sender.send(event)
                },
            }
        }
    }

    /// Accepts records in order; the first failure abandons the rest.
    pub fn send_batch(&mut self, events: Vec<LogStashRecord>) -> (r: Result<(), Error>)
        requires
            old(self).wf(),
        ensures
            final(self).wf(),
            final(self).policy() == old(self).policy(),
            r is Err ==> final(self).state().trace.len() > old(self).state().trace.len(),
            r is Err ==> exists|k: int|
                0 <= k < events@.len() && #[trigger] failed_at(
                    old(self).policy(),
                    old(self).state(),
                    events@,
                    k,
                    final(self).state(),
                ),
            r is Ok ==> final(self).state() == accept_all_spec(old(self).policy(), old(self).state(), events@),
            accept_all_spec(old(self).policy(), old(self).state(), events@).trace.len()
                == old(self).state().trace.len() ==> r is Ok,
            old(self).state().trace.is_prefix_of(final(self).state().trace),
            final(self).state().trace.is_prefix_of(
                accept_all_spec(old(self).policy(), old(self).state(), events@).trace,
            ),
    {
        let ghost s0 = self.state();
        let ghost p = self.policy;
        let ghost all = events@;
        let n = events.len();
        let mut rest = events;
        let mut pending: Vec<LogStashRecord> = Vec::new();
        while rest.len() > 0
            invariant
                self == old(self),
                p == old(self).policy,
                s0 == old(self).state(),
                all == events@,
                all.len() == n,
                rest@.len() + pending@.len() == n,
                rest@ == all.take(rest@.len() as int),
                forall|j: int| 0 <= j < pending@.len() ==> pending@[j] == all[n - 1 - j],
            decreases rest@.len(),
        {
            let e = rest.pop().unwrap();
            pending.push(e);
            assert(rest@ =~= all.take(rest@.len() as int));
        }
        proof {
            assert(all.take(0) =~= Seq::<LogStashRecord>::empty());
            lemma_prefix_refl(s0.trace);
        }
        while pending.len() > 0
            invariant
                all.len() == n,
                pending@.len() <= n,
                forall|j: int| 0 <= j < pending@.len() ==> pending@[j] == all[n - 1 - j],
                self.wf(),
                self.policy == p,
                p == old(self).policy,
                s0 == old(self).state(),
                all == events@,
                self.state() == accept_all_spec(p, s0, all.take(n - pending@.len())),
                s0.trace.is_prefix_of(self.state().trace),
            decreases pending@.len(),
        {
            let ghost k: int = n - pending@.len();
            let e = pending.pop().unwrap();
            assert(e == all[k]);
            let ghost before = self.state();
            let res = self.send(e);
            proof {
                assert(all.take(k + 1).drop_last() =~= all.take(k));
                assert(accept_all_spec(p, s0, all.take(k + 1)) == accept_spec(p, before, e));
                lemma_prefix_trans(s0.trace, before.trace, self.state().trace);
            }
            match res {
                Ok(()) => {},
                Err(err) => {
                    proof {
                        assert(failed_at(p, s0, all, k, self.state()));
                        lemma_accept_all_extends(p, s0, all, k + 1);
                        lemma_prefix_trans(
                            self.state().trace,
                            accept_all_spec(p, s0, all.take(k + 1)).trace,
                            accept_all_spec(p, s0, all).trace,
                        );
                    }
                    return Err(err);
                },
            }
        }
        proof {
            assert(all.take(n as int) =~= all);
        }
        Ok(())
    }

    /// One step of the worker on what its wait came back with, at time
    /// `now`.
    ///
    /// A record command first recomputes the deadline, then accepts its
    /// records; a flush command or a timeout drains the batch; a closed
    /// channel stops the worker without draining. Errors of the sender are
    /// returned as `Failed` when fatal and as `Recovered` otherwise; the
    /// records involved are dropped either way.
    pub fn step(&mut self, msg: Received, now: u64) -> (r: Flow)
        requires
            old(self).wf(),
        ensures
            final(self).wf(),
            final(self).policy() == old(self).policy(),
            r is Stopped <==> msg is Disconnected,
            r is Stopped ==> final(self).state() == old(self).state(),
            r is Continue ==> final(self).state() == step_spec(old(self).policy(), old(self).state(), msg, now),
            !(msg is Disconnected) && step_spec(old(self).policy(), old(self).state(), msg, now).trace.len()
                == old(self).state().trace.len() ==> r is Continue,
            r matches Flow::Recovered(e) ==> !e.fatal(),
            r matches Flow::Failed(e) ==> e.fatal(),
            !(msg matches Received::Command(Command::SendBatch(_))) ==> final(self).state().batch
                == step_spec(old(self).policy(), old(self).state(), msg, now).batch,
            !(msg matches Received::Command(Command::SendBatch(_))) ==> final(self).state().deadline
                == step_spec(old(self).policy(), old(self).state(), msg, now).deadline,
            !(r is Continue) ==> batch_failed(old(self).policy(), old(self).state(), msg, now, final(self).state()),
            !(r is Continue) && !(r is Stopped) ==> final(self).state().trace.len() > old(self).state().trace.len(),
            old(self).state().trace.is_prefix_of(final(self).state().trace),
            final(self).state().trace.is_prefix_of(
                step_spec(old(self).policy(), old(self).state(), msg, now).trace,
            ),
    {
        proof {
            lemma_prefix_refl(self.sender.sent());
        }
        let res = match msg {
            Received::Command(Command::Send(event)) => {
                self.next_deadline(now);
                self.send(event)
            },
            Received::Command(Command::SendBatch(events)) => {
                self.next_deadline(now);
                self.send_batch(events)
            },
            Received::Command(Command::Flush) => self.flush(),
            Received::Timeout => self.flush(),
            Received::Disconnected => {
                return Flow::Stopped;
            },
        };
        flow_of(res)
    }
}

} // verus!
