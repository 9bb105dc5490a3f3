//! The runtime contract: the two-state lifecycle machine, the launcher and
//! runtime traits, and the first-consumer-wins listener chain.
//!
//! A runtime accepts commands, publishes outputs, and carries an
//! authoritative lifecycle status: once terminated, no operation brings it
//! back to running. Published outputs run through the registered listeners in
//! registration order; the first listener that consumes an event stops the
//! chain, and an event nobody consumed is stored in the output buffer.

use vstd::prelude::*;
use std::collections::VecDeque;
use crate::cmd::Cmd;
use crate::output::Output;

verus! {

/// The runtime's lifecycle: running, or terminated with an outcome. This
/// status is authoritative; a terminated *output event* is only advisory.
#[derive(Debug)]
pub enum VmStatus {
    /// The runtime accepts commands and can produce outputs.
    Running,
    /// The runtime stopped, successfully or with a failure message; no
    /// transition leaves this state.
    Terminated(Result<(), String>),
}

/// A runtime operation error.
#[derive(Debug, Clone, PartialEq, Eq)]
pub enum VmError {
    /// A command could not be submitted.
    Submission { message: String },
    /// No output can be produced.
    Output { message: String },
}

/// An output listener: it inspects a published event and either consumes it
/// (ending the chain) or hands an event on to the next listener. Implementors
/// declare their decision and state change as spec functions and are held to
/// them.
pub trait OutputListener: Sized {
    /// What the listener does with an event: `None` consumes it, `Some`
    /// passes the (possibly transformed) event on.
    spec fn verdict(&self, o: Output) -> Option<Output>;

    /// The listener's state after seeing an event.
    spec fn after(&self, o: Output) -> Self;

    /// Receives one published event.
    fn on_output(&mut self, o: Output) -> (r: Option<Output>)
        ensures
            r == old(self).verdict(o),
            *final(self) == old(self).after(o),
    ;
}

/// One pass of an event down a listener chain: the listeners' states after
/// the pass, and the event that falls through (`None` when consumed).
/// Listeners after the consumer are untouched.
pub open spec fn run_chain<L: OutputListener>(ls: Seq<L>, o: Output) -> (Seq<L>, Option<Output>)
    decreases ls.len(),
{
    if ls.len() == 0 {
        (ls, Some(o))
    } else {
        match ls[0].verdict(o) {
            None => (Seq::empty().push(ls[0].after(o)) + ls.skip(1), None),
            Some(t) => {
                let rest = run_chain(ls.skip(1), t);
                (Seq::empty().push(ls[0].after(o)) + rest.0, rest.1)
            },
        }
    }
}

/// The event arriving at listener `i`, given that all earlier listeners
/// passed theirs on; `None` once some earlier listener consumed it.
pub open spec fn arrival<L: OutputListener>(ls: Seq<L>, o: Output, i: int) -> Option<Output>
    decreases i,
{
    if i <= 0 {
        Some(o)
    } else {
        match arrival(ls, o, i - 1) {
            Some(v) => {
                if i - 1 < ls.len() {
                    ls[i - 1].verdict(v)
                } else {
                    None
                }
            },
            None => None,
        }
    }
}

/// First consumer wins: when the event reaches listener `k` and `k` consumes
/// it, nothing falls through to the buffer, and every listener after `k` is
/// never invoked (its state survives the pass unchanged).
pub proof fn lemma_first_consumer_wins<L: OutputListener>(ls: Seq<L>, o: Output, k: int)
    requires
        0 <= k < ls.len(),
        arrival(ls, o, k) matches Some(v) && ls[k].verdict(v) is None,
    ensures
        run_chain(ls, o).1 is None,
        run_chain(ls, o).0.len() == ls.len(),
        forall|j: int| k < j < ls.len() ==> run_chain(ls, o).0[j] == ls[j],
    decreases k,
{
    let v = arrival(ls, o, k)->Some_0;
    if k == 0 {
        assert(run_chain(ls, o).0 =~= Seq::empty().push(ls[0].after(o)) + ls.skip(1));
        assert forall|j: int| 0 < j < ls.len() implies run_chain(ls, o).0[j] == ls[j] by {
            assert((Seq::empty().push(ls[0].after(o)) + ls.skip(1))[j] == ls.skip(1)[j - 1]);
        }
    } else {
        lemma_arrival_some(ls, o, 1, k);
        assert(arrival(ls, o, 0) == Some(o));
        assert(arrival(ls, o, 1) == ls[0].verdict(o));
        let t = arrival(ls, o, 1)->Some_0;
        assert forall|i: int| 0 <= i <= k - 1 implies arrival(ls.skip(1), t, i) == arrival(
            ls,
            o,
            i + 1,
        ) by {
            lemma_arrival_shift(ls, o, i);
        }
        assert(ls.skip(1)[k - 1] == ls[k]);
        lemma_first_consumer_wins(ls.skip(1), t, k - 1);
        let rest = run_chain(ls.skip(1), t);
        assert forall|j: int| k < j < ls.len() implies run_chain(ls, o).0[j] == ls[j] by {
            assert((Seq::empty().push(ls[0].after(o)) + rest.0)[j] == rest.0[j - 1]);
            assert(rest.0[j - 1] == ls.skip(1)[j - 1]);
        }
    }
}

/// Dropping a passing head listener shifts arrival indices by one.
proof fn lemma_arrival_shift<L: OutputListener>(ls: Seq<L>, o: Output, i: int)
    requires
        0 <= i,
        ls.len() > 0,
        ls[0].verdict(o) is Some,
    ensures
        arrival(ls.skip(1), ls[0].verdict(o)->Some_0, i) == arrival(ls, o, i + 1),
    decreases i,
{
    let t = ls[0].verdict(o)->Some_0;
    if i == 0 {
        assert(arrival(ls, o, 0) == Some(o));
        assert(arrival(ls, o, 1) == ls[0].verdict(o));
    } else {
        lemma_arrival_shift(ls, o, i - 1);
        if i < ls.len() {
            assert(ls.skip(1)[i - 1] == ls[i]);
        }
    }
}

/// An event that reaches listener `k` reached every listener before it.
proof fn lemma_arrival_some<L: OutputListener>(ls: Seq<L>, o: Output, j: int, k: int)
    requires
        0 <= j <= k,
        arrival(ls, o, k) is Some,
    ensures
        arrival(ls, o, j) is Some,
    decreases k - j,
{
    if j < k {
        if arrival(ls, o, k - 1) is None {
            assert(arrival(ls, o, k) is None);
        }
        lemma_arrival_some(ls, o, j, k - 1);
    }
}

/// A listener that counts the events it sees and either passes each one on
/// unchanged or consumes each one.
#[derive(Debug)]
pub struct CountListener {
    /// Whether the listener consumes every event it sees.
    pub consume: bool,
    /// How many events the listener has seen (saturating).
    pub seen: u64,
}

impl OutputListener for CountListener {
    open spec fn verdict(&self, o: Output) -> Option<Output> {
        if self.consume {
            None
        } else {
            Some(o)
        }
    }

    open spec fn after(&self, o: Output) -> Self {
        CountListener {
            consume: self.consume,
            seen: if self.seen == u64::MAX {
                self.seen
            } else {
                (self.seen + 1) as u64
            },
        }
    }

    fn on_output(&mut self, o: Output) -> (r: Option<Output>) {
        if self.seen < u64::MAX {
            self.seen = self.seen + 1;
        }
        if self.consume {
            None
        } else {
            Some(o)
        }
    }
}

/// A runtime: the uniform interface every launched backend presents. The
/// abstract `terminated` flag never goes back to false: that is status
/// terminality, promised by every method below.
pub trait VmRuntime: Sized {
    /// The authoritative lifecycle flag.
    spec fn terminated(&self) -> bool;

    /// Submits one command. Success is about submission alone; outputs
    /// arrive later through the output path. A terminated runtime refuses.
    fn input_cmd(&mut self, cmd: Cmd) -> (r: Result<(), VmError>)
        ensures
            old(self).terminated() ==> final(self).terminated(),
            old(self).terminated() ==> r is Err,
    ;

    /// Pulls the oldest pending output; fails when none can be produced.
    fn fetch_output(&mut self) -> (r: Result<Output, VmError>)
        ensures
            old(self).terminated() ==> final(self).terminated(),
    ;

    /// Pulls the oldest pending output without blocking; absence is not an
    /// error.
    fn try_fetch_output(&mut self) -> (r: Result<Option<Output>, VmError>)
        ensures
            old(self).terminated() ==> final(self).terminated(),
    ;

    /// The authoritative status, agreeing with the abstract flag.
    fn status(&self) -> (r: &VmStatus)
        ensures
            (*r is Terminated) == self.terminated(),
    ;

    /// Whether the runtime has terminated; derived from the status.
    fn is_terminated(&self) -> (r: bool)
        ensures
            r == self.terminated(),
    {
        matches!(self.status(), VmStatus::Terminated(_))
    }

    /// Requests shutdown. On success the runtime is terminated, and by the
    /// clauses above it then never reports running again.
    fn terminate(&mut self) -> (r: Result<(), VmError>)
        ensures
            r is Ok ==> final(self).terminated(),
            old(self).terminated() ==> final(self).terminated(),
    ;
}

/// A launcher: a one-shot builder, consumed by `launch`, that yields a ready
/// (running) runtime or a reported failure.
pub trait VmLauncher: Sized {
    /// The runtime this launcher starts.
    type Runtime: VmRuntime;

    /// Builds and starts the runtime; a launched runtime starts running.
    fn launch(self) -> (r: Result<Self::Runtime, VmError>)
        ensures
            r matches Ok(rt) ==> !rt.terminated(),
    ;
}

/// The protocol layer's own runtime: it owns the listener list, the output
/// buffer and the status, and queues submitted commands for a driver, which
/// publishes the backend's events back through [`RelayVm::on_output`].
pub struct RelayVm<L: OutputListener> {
    listeners: Vec<L>,
    buffer: VecDeque<Output>,
    pending: VecDeque<Cmd>,
    status: VmStatus,
}

impl<L: OutputListener> RelayVm<L> {
    /// The registered listeners, in registration order.
    pub closed spec fn sp_listeners(&self) -> Seq<L> {
        self.listeners@
    }

    /// The buffered outputs, oldest first.
    pub closed spec fn sp_buffer(&self) -> Seq<Output> {
        self.buffer@
    }

    /// The submitted commands not yet taken by the driver, oldest first.
    pub closed spec fn sp_pending(&self) -> Seq<Cmd> {
        self.pending@
    }

    /// Whether the status is the terminated state.
    pub closed spec fn sp_terminated(&self) -> bool {
        self.status is Terminated
    }

    /// The full status value, outcome included.
    pub closed spec fn sp_status(&self) -> VmStatus {
        self.status
    }

    /// A fresh, running runtime with no listeners and empty queues.
    pub fn new() -> (r: RelayVm<L>)
        ensures
            r.sp_listeners() == Seq::<L>::empty(),
            r.sp_buffer() == Seq::<Output>::empty(),
            r.sp_pending() == Seq::<Cmd>::empty(),
            !r.terminated(),
    {
        RelayVm {
            listeners: Vec::new(),
            buffer: VecDeque::new(),
            pending: VecDeque::new(),
            status: VmStatus::Running,
        }
    }

    /// Registers one more listener, at the end of the chain.
    pub fn add_listener(&mut self, l: L)
        ensures
            final(self).sp_listeners() == old(self).sp_listeners().push(l),
            final(self).sp_buffer() == old(self).sp_buffer(),
            final(self).sp_pending() == old(self).sp_pending(),
            final(self).terminated() == old(self).terminated(),
    {
        self.listeners.push(l);
    }

    /// The listeners, for inspection.
    pub fn listeners(&self) -> (r: &Vec<L>)
        ensures
            r@ == self.sp_listeners(),
    {
        &self.listeners
    }

    /// Hands the oldest submitted command to the driver.
    pub fn take_cmd(&mut self) -> (r: Option<Cmd>)
        ensures
            old(self).sp_pending().len() > 0 ==> r == Some(old(self).sp_pending()[0]) && final(self).sp_pending() == old(self).sp_pending().skip(1),
            old(self).sp_pending().len() == 0 ==> r is None && final(self).sp_pending() == old(self).sp_pending(),
            final(self).sp_buffer() == old(self).sp_buffer(),
            final(self).sp_listeners() == old(self).sp_listeners(),
            final(self).terminated() == old(self).terminated(),
    {
        let r = self.pending.pop_front();
        proof {
            if old(self).sp_pending().len() > 0 {
                assert(self.pending@ =~= old(self).sp_pending().skip(1));
            }
        }
        r
    }

    /// Publishes one event: the listeners see it in registration order, the
    /// first consumer ends the pass, and an unconsumed event is stored in
    /// the output buffer.
    pub fn on_output(&mut self, o: Output)
        ensures
            final(self).sp_listeners() == run_chain(old(self).sp_listeners(), o).0,
            (match run_chain(old(self).sp_listeners(), o).1 {
                Some(v) => final(self).sp_buffer() == old(self).sp_buffer().push(v),
                None => final(self).sp_buffer() == old(self).sp_buffer(),
            }),
            final(self).sp_pending() == old(self).sp_pending(),
            final(self).terminated() == old(self).terminated(),
    {
        let ghost all = self.listeners@;
        let mut cur = o;
        let mut i: usize = 0;
        proof {
            assert(all.skip(0) =~= all);
            let rem = run_chain(all.skip(0), cur);
            assert(self.listeners@.take(0) + rem.0 =~= rem.0);
        }
        while i < self.listeners.len()
            invariant
                all == old(self).sp_listeners(),
                0 <= i <= self.listeners@.len(),
                self.listeners@.len() == all.len(),
                forall|j: int| i <= j < all.len() ==> self.listeners@[j] == all[j],
                self.buffer@ == old(self).sp_buffer(),
                self.pending@ == old(self).sp_pending(),
                self.status is Terminated <==> old(self).terminated(),
                run_chain(all, o).0 == self.listeners@.take(i as int) + run_chain(
                    all.skip(i as int),
                    cur,
                ).0,
                run_chain(all, o).1 == run_chain(all.skip(i as int), cur).1,
            decreases self.listeners@.len() - i,
        {
            let ghost ls_before = self.listeners@;
            let mut l = self.listeners.remove(i);
            let verdict = l.on_output(cur);
            self.listeners.insert(i, l);
            proof {
                assert(self.listeners@ =~= ls_before.update(i as int, l));
                assert(all.skip(i as int)[0] == all[i as int]);
                assert(all.skip(i as int).skip(1) =~= all.skip(i + 1));
            }
            match verdict {
                None => {
                    proof {
                        let rem = run_chain(all.skip(i as int), cur);
                        assert(rem.1 is None);
                        assert(self.listeners@.take(i + 1) =~= self.listeners@.take(
                            i as int,
                        ).push(l));
                        assert(self.listeners@.take(i as int) + (Seq::empty().push(l) + all.skip(
                            i + 1,
                        )) =~= self.listeners@.take(i + 1) + all.skip(i + 1));
                        assert(self.listeners@ =~= self.listeners@.take(i + 1) + all.skip(i + 1));
                        assert(run_chain(all, o).0 =~= self.listeners@);
                    }
                    return ;
                },
                Some(t) => {
                    proof {
                        assert(self.listeners@.take(i + 1) =~= self.listeners@.take(
                            i as int,
                        ).push(l));
                        let rem2 = run_chain(all.skip(i + 1), t);
                        assert(self.listeners@.take(i as int) + (Seq::empty().push(l) + rem2.0)
                            =~= self.listeners@.take(i + 1) + rem2.0);
                    }
                    cur = t;
                },
            }
            i = i + 1;
        }
        proof {
            assert(all.skip(all.len() as int) =~= Seq::<L>::empty());
            assert(run_chain(Seq::<L>::empty(), cur) == (Seq::<L>::empty(), Some(cur)));
            assert(self.listeners@.take(all.len() as int) =~= self.listeners@);
            assert(self.listeners@ + Seq::<L>::empty() =~= self.listeners@);
            assert(run_chain(all, o).0 =~= self.listeners@);
        }
        self.buffer.push_back(cur);
    }
}

impl<L: OutputListener> VmRuntime for RelayVm<L> {
    open spec fn terminated(&self) -> bool {
        self.sp_terminated()
    }

    fn input_cmd(&mut self, cmd: Cmd) -> (r: Result<(), VmError>)
        ensures
            !old(self).terminated() ==> r is Ok && final(self).sp_pending() == old(self).sp_pending().push(cmd),
            old(self).terminated() ==> final(self).sp_pending() == old(self).sp_pending(),
            final(self).sp_buffer() == old(self).sp_buffer(),
            final(self).sp_listeners() == old(self).sp_listeners(),
            final(self).terminated() == old(self).terminated(),
    {
        match self.status {
            VmStatus::Running => {
                self.pending.push_back(cmd);
                Ok(())
            },
            VmStatus::Terminated(_) => Err(
                VmError::Submission {
                    message: "cannot submit a command: the runtime has terminated".to_owned(),
                },
            ),
        }
    }

    fn fetch_output(&mut self) -> (r: Result<Output, VmError>)
        ensures
            old(self).sp_buffer().len() > 0 ==> (r matches Ok(o) && o == old(self).sp_buffer()[0]
                && final(self).sp_buffer() == old(self).sp_buffer().skip(1)),
            old(self).sp_buffer().len() == 0 ==> r is Err && final(self).sp_buffer() == old(self).sp_buffer(),
            final(self).sp_pending() == old(self).sp_pending(),
            final(self).sp_listeners() == old(self).sp_listeners(),
            final(self).terminated() == old(self).terminated(),
    {
        match self.buffer.pop_front() {
            Some(o) => {
                proof {
                    assert(self.buffer@ =~= old(self).sp_buffer().skip(1));
                }
                Ok(o)
            },
            None => Err(VmError::Output { message: "no output is pending".to_owned() }),
        }
    }

    fn try_fetch_output(&mut self) -> (r: Result<Option<Output>, VmError>)
        ensures
            old(self).sp_buffer().len() > 0 ==> (r matches Ok(o) && o == Some(
                old(self).sp_buffer()[0],
            ) && final(self).sp_buffer() == old(self).sp_buffer().skip(1)),
            old(self).sp_buffer().len() == 0 ==> (r matches Ok(o) && o is None && final(self).sp_buffer() == old(self).sp_buffer()),
            final(self).sp_pending() == old(self).sp_pending(),
            final(self).sp_listeners() == old(self).sp_listeners(),
            final(self).terminated() == old(self).terminated(),
    {
        let r = self.buffer.pop_front();
        proof {
            if old(self).sp_buffer().len() > 0 {
                assert(self.buffer@ =~= old(self).sp_buffer().skip(1));
            }
        }
        Ok(r)
    }

    fn status(&self) -> (r: &VmStatus)
        ensures
            *r == self.sp_status(),
    {
        &self.status
    }

    fn terminate(&mut self) -> (r: Result<(), VmError>)
        ensures
            r is Ok,
            final(self).terminated(),
            !old(self).terminated() ==> final(self).sp_status() == VmStatus::Terminated(
                Ok::<(), String>(()),
            ),
            old(self).terminated() ==> final(self).sp_status() == old(self).sp_status(),
            final(self).sp_buffer() == old(self).sp_buffer(),
            final(self).sp_pending() == old(self).sp_pending(),
            final(self).sp_listeners() == old(self).sp_listeners(),
    {
        if !matches!(self.status, VmStatus::Terminated(_)) {
            self.status = VmStatus::Terminated(Ok(()));
        }
        Ok(())
    }
}

/// A launcher for [`RelayVm`]: it gathers the listeners to register, and
/// `launch` starts the runtime with them, running and empty.
pub struct RelayLauncher<L: OutputListener> {
    /// The listeners the runtime starts with, in registration order.
    pub listeners: Vec<L>,
}

impl<L: OutputListener> RelayLauncher<L> {
    /// A launcher with no listeners yet.
    pub fn new() -> (r: RelayLauncher<L>)
        ensures
            r.listeners@ == Seq::<L>::empty(),
    {
        RelayLauncher { listeners: Vec::new() }
    }
}

impl<L: OutputListener> VmLauncher for RelayLauncher<L> {
    type Runtime = RelayVm<L>;

    /// Starting the in-memory runtime cannot fail.
    fn launch(self) -> (r: Result<RelayVm<L>, VmError>)
        ensures
            r is Ok,
            r matches Ok(rt) ==> !rt.terminated() && rt.sp_listeners() == self.listeners@
                && rt.sp_buffer() == Seq::<Output>::empty() && rt.sp_pending() == Seq::<
                Cmd,
            >::empty(),
    {
        Ok(
            RelayVm {
                listeners: self.listeners,
                buffer: VecDeque::new(),
                pending: VecDeque::new(),
                status: VmStatus::Running,
            },
        )
    }
}

} // verus!
