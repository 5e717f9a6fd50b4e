//! The actor run-loop model and the owner-facing handle.
//!
//! The run loop's outside work — spawning an execution context, receiving on
//! channels, sleeping, running user hooks — cannot be verified, so the model
//! splits it off: the verified state machine decides, for every phase, which
//! actions happen and in what order (drain the mailbox, run a hook, sleep),
//! and an unverified driver performs them. The decisions carry the whole
//! ordering contract: messages are delivered in send order, deliveries
//! precede the tick of the same iteration, and a pending stop request
//! suppresses the tick and runs the stop hook after the drained messages.

use vstd::prelude::*;

use crate::definition::ActorDefinition;

verus! {

/// The lifecycle phase of a running actor instance.
#[derive(Clone, Copy, PartialEq, Eq, Structural, Debug)]
pub enum Phase {
    /// The `on_init` hook has not run yet.
    Initializing,
    /// The run loop is draining messages and ticking.
    Looping,
    /// A stop request took effect; the `on_stop` hook is owed.
    Stopping,
    /// The execution context has ended.
    Terminated,
}

/// One action the run loop instructs its driver to perform.
#[derive(PartialEq, Eq, Debug)]
pub enum Action<M> {
    /// Run the `on_init` hook against the exclusively owned state.
    RunInit,
    /// Dispatch one mailbox message to the `on_message` handler.
    Deliver(M),
    /// Run the `on_tick` hook.
    RunTick,
    /// Sleep for the configured tick interval, in milliseconds.
    Sleep(u64),
    /// Run the `on_stop` hook; the actor terminates.
    RunStop,
}

/// Mathematical model of a running actor instance.
#[verifier::ext_equal]
#[verifier::reject_recursive_types(M)]
pub ghost struct ModelState<M> {
    pub phase: Phase,
    pub tick_interval: u64,
    /// Messages sent but not yet dispatched, in send order.
    pub pending: Seq<M>,
    /// Messages already dispatched, in dispatch order.
    pub delivered: Seq<M>,
    pub stop_requested: bool,
}

impl<M> ModelState<M> {
    /// Every message ever sent, in send order.
    pub open spec fn sent(self) -> Seq<M> {
        self.delivered + self.pending
    }
}

/// The actions of one `step` call and the state it leaves behind.
///
/// One `Looping` iteration dispatches every queued message in send order,
/// then polls the stop signal: if it is pending the tick is skipped and the
/// stop hook becomes due, otherwise the tick hook runs and the loop sleeps
/// for the tick interval.
pub open spec fn step_spec<M>(s: ModelState<M>) -> (ModelState<M>, Seq<Action<M>>) {
    match s.phase {
        Phase::Initializing => (
            (ModelState { phase: Phase::Looping, ..s }),
            seq![Action::<M>::RunInit],
        ),
        Phase::Looping => {
            let drained = ModelState {
                pending: Seq::empty(),
                delivered: s.delivered + s.pending,
                ..s
            };
            let deliveries = s.pending.map_values(|m: M| Action::<M>::Deliver(m));
            if s.stop_requested {
                ((ModelState { phase: Phase::Stopping, ..drained }), deliveries)
            } else {
                (
                    drained,
                    deliveries + seq![Action::<M>::RunTick, Action::<M>::Sleep(s.tick_interval)],
                )
            }
        },
        Phase::Stopping => (
            (ModelState { phase: Phase::Terminated, ..s }),
            seq![Action::<M>::RunStop],
        ),
        Phase::Terminated => (s, Seq::empty()),
    }
}

/// The actions of a `stop` call: a stop request followed by stepping the
/// loop until it terminates. Messages already queued are dispatched before
/// the stop hook; the tick of the final iteration is skipped.
pub open spec fn stop_spec<M>(s: ModelState<M>) -> Seq<Action<M>> {
    let deliveries = s.pending.map_values(|m: M| Action::<M>::Deliver(m));
    match s.phase {
        Phase::Initializing => seq![Action::<M>::RunInit] + deliveries + seq![
            Action::<M>::RunStop,
        ],
        Phase::Looping => deliveries + seq![Action::<M>::RunStop],
        Phase::Stopping => seq![Action::<M>::RunStop],
        Phase::Terminated => Seq::empty(),
    }
}

/// Trait for the `join()` operation that waits for an actor's execution
/// context. A spawn strategy supplies an implementation for its own handle
/// type; the model's simulated context implements it trivially.
pub trait JoinableHandle {
    fn join(self);
}

/// The join token of the model's own (simulated) execution context: the
/// verified model runs in the caller, so joining it never waits.
pub struct ModelJoinHandle;

impl JoinableHandle for ModelJoinHandle {
    fn join(self) {
    }
}

/// Pre-start actor configuration: what the generator fixes before the
/// instance runs. User state and hook bodies live with the driver.
pub struct Actor {
    tick_interval: u64,
}

/// Handle returned by `Actor::start()`: the owner side of a running actor
/// instance. The owner may only send messages and request or await
/// termination; the modelled state is exclusively owned by the run loop.
pub struct Handle<T: JoinableHandle, M> {
    /// The underlying handle to the execution context.
    pub join_handle: T,
    phase: Phase,
    tick_interval: u64,
    mailbox: Vec<M>,
    stop_requested: bool,
    delivered: Ghost<Seq<M>>,
}

impl<T: JoinableHandle, M> View for Handle<T, M> {
    type V = ModelState<M>;

    closed spec fn view(&self) -> ModelState<M> {
        ModelState {
            phase: self.phase,
            tick_interval: self.tick_interval,
            pending: self.mailbox@,
            delivered: self.delivered@,
            stop_requested: self.stop_requested,
        }
    }
}

impl Actor {
    /// An actor configuration with the given tick interval in milliseconds.
    pub fn new(tick_interval: u64) -> (a: Actor)
        ensures
            a.tick_interval_millis() == tick_interval,
    {
        Actor { tick_interval }
    }

    /// The actor configuration a typed definition calls for.
    pub fn from_definition(d: &ActorDefinition) -> (a: Actor)
        ensures
            a.tick_interval_millis() == d.tick_interval,
    {
        Actor { tick_interval: d.tick_interval }
    }

    pub closed spec fn tick_interval_millis(self) -> u64 {
        self.tick_interval
    }

    /// Starts the actor: the instance begins in `Initializing` with an empty
    /// mailbox and no stop request, and the owner receives its handle.
    pub fn start<M>(self) -> (h: Handle<ModelJoinHandle, M>)
        ensures
            h@ == (ModelState::<M> {
                phase: Phase::Initializing,
                tick_interval: self.tick_interval_millis(),
                pending: Seq::empty(),
                delivered: Seq::empty(),
                stop_requested: false,
            }),
    {
        let h = Handle {
            join_handle: ModelJoinHandle,
            phase: Phase::Initializing,
            tick_interval: self.tick_interval,
            mailbox: Vec::new(),
            stop_requested: false,
            delivered: Ghost(Seq::empty()),
        };
        proof {
            assert(h@ =~= (ModelState::<M> {
                phase: Phase::Initializing,
                tick_interval: self.tick_interval_millis(),
                pending: Seq::empty(),
                delivered: Seq::empty(),
                stop_requested: false,
            }));
        }
        h
    }
}

impl<T: JoinableHandle, M> Handle<T, M> {
    /// Enqueues a message into the mailbox. Never blocks, never fails:
    /// a message sent to an instance that no longer drains its mailbox is
    /// simply never collected.
    pub fn send(&mut self, msg: M)
        ensures
            final(self)@ == (ModelState { pending: old(self)@.pending.push(msg), ..old(self)@ }),
    {
        self.mailbox.push(msg);
        proof {
            assert(final(self)@ =~= (ModelState {
                pending: old(self)@.pending.push(msg),
                ..old(self)@
            }));
        }
    }

    /// Requests a cooperative stop: the signal is polled by the run loop
    /// after the next mailbox drain, so messages already queued still get
    /// dispatched first.
    pub fn request_stop(&mut self)
        ensures
            final(self)@ == (ModelState { stop_requested: true, ..old(self)@ }),
    {
        self.stop_requested = true;
        proof {
            assert(final(self)@ =~= (ModelState { stop_requested: true, ..old(self)@ }));
        }
    }

    /// Runs one iteration of the actor's loop and reports, in order, the
    /// actions the driver must perform.
    pub fn step(&mut self) -> (actions: Vec<Action<M>>)
        ensures
            (final(self)@, actions@) == step_spec(old(self)@),
    {
        match self.phase {
            Phase::Initializing => {
                self.phase = Phase::Looping;
                let actions = vec![Action::<M>::RunInit];
                proof {
                    assert(final(self)@ =~= step_spec(old(self)@).0);
                    assert(actions@ =~= step_spec(old(self)@).1);
                }
                actions
            },
            Phase::Looping => {
                let mut actions: Vec<Action<M>> = Vec::new();
                let ghost orig = self.mailbox@;
                let ghost mut processed: Seq<M> = Seq::empty();
                while self.mailbox.len() > 0
                    invariant
                        processed + self.mailbox@ == orig,
                        actions@ == processed.map_values(|m: M| Action::<M>::Deliver(m)),
                        self.phase == old(self).phase,
                        self.tick_interval == old(self).tick_interval,
                        self.stop_requested == old(self).stop_requested,
                        self.delivered == old(self).delivered,
                        self.join_handle == old(self).join_handle,
                    decreases self.mailbox@.len(),
                {
                    let m = self.mailbox.remove(0);
                    actions.push(Action::Deliver(m));
                    proof {
                        let prev = processed;
                        processed = processed.push(m);
                        assert(processed + self.mailbox@ =~= prev + (seq![m]
                            + self.mailbox@));
                        assert(prev + (seq![m] + self.mailbox@) =~= orig);
                        assert(actions@ =~= processed.map_values(
                            |x: M| Action::<M>::Deliver(x),
                        ));
                    }
                }
                proof {
                    assert(processed =~= orig);
                }
                self.delivered = Ghost(self.delivered@ + orig);
                if self.stop_requested {
                    self.phase = Phase::Stopping;
                } else {
                    actions.push(Action::RunTick);
                    actions.push(Action::Sleep(self.tick_interval));
                }
                proof {
                    assert(final(self)@ =~= step_spec(old(self)@).0);
                    assert(actions@ =~= step_spec(old(self)@).1);
                }
                actions
            },
            Phase::Stopping => {
                self.phase = Phase::Terminated;
                let actions = vec![Action::<M>::RunStop];
                proof {
                    assert(final(self)@ =~= step_spec(old(self)@).0);
                    assert(actions@ =~= step_spec(old(self)@).1);
                }
                actions
            },
            Phase::Terminated => {
                let actions: Vec<Action<M>> = Vec::new();
                proof {
                    assert(final(self)@ =~= step_spec(old(self)@).0);
                    assert(actions@ =~= step_spec(old(self)@).1);
                }
                actions
            },
        }
    }

    /// The current lifecycle phase.
    pub fn current_phase(&self) -> (p: Phase)
        ensures
            p == self@.phase,
    {
        self.phase
    }

    /// Requests the actor to stop and waits for its execution context to
    /// terminate, reporting every remaining action in order: the messages
    /// already queued are dispatched before the stop hook runs, and no tick
    /// runs after the stop request is polled. Consumes the handle.
    pub fn stop(self) -> (log: Vec<Action<M>>)
        ensures
            log@ == stop_spec(self@),
    {
        let ghost s0 = self@;
        let mut this = self;
        this.request_stop();
        let mut log = this.step();
        let mut more = this.step();
        log.append(&mut more);
        let mut more2 = this.step();
        log.append(&mut more2);
        let mut more3 = this.step();
        log.append(&mut more3);
        let Handle { join_handle, .. } = this;
        join_handle.join();
        proof {
            assert(log@ =~= stop_spec(s0));
        }
        log
    }
}

/// Whether an action dispatches a message.
pub open spec fn is_delivery<M>(a: Action<M>) -> bool {
    match a {
        Action::Deliver(_) => true,
        _ => false,
    }
}

/// Within one loop iteration, every message delivery precedes the tick hook
/// and the stop hook, and the deliveries are exactly the queued messages in
/// send order; when a stop request is pending, the iteration runs no tick at
/// all.
pub proof fn lemma_step_ordering<M>(s: ModelState<M>)
    ensures
        forall|i: int, j: int|
            0 <= i < j < step_spec(s).1.len() && is_delivery(#[trigger] step_spec(s).1[j])
                ==> (#[trigger] step_spec(s).1[i]) != Action::<M>::RunTick && step_spec(s).1[i]
                != Action::<M>::RunStop,
        s.phase == Phase::Looping ==> step_spec(s).1.take(s.pending.len() as int) == s.pending
            .map_values(|m: M| Action::<M>::Deliver(m)),
        s.phase == Phase::Looping && s.stop_requested ==> forall|i: int|
            0 <= i < step_spec(s).1.len() ==> (#[trigger] step_spec(s).1[i])
                != Action::<M>::RunTick,
{
    let log = step_spec(s).1;
    if s.phase == Phase::Looping {
        let deliveries = s.pending.map_values(|m: M| Action::<M>::Deliver(m));
        assert(log.take(s.pending.len() as int) =~= deliveries);
        assert forall|i: int, j: int|
            0 <= i < j < log.len() && is_delivery(#[trigger] log[j]) implies (#[trigger] log[i])
            != Action::<M>::RunTick && log[i] != Action::<M>::RunStop by {
            if j >= s.pending.len() {
                assert(!is_delivery(log[j]));
            } else {
                assert(log[i] == deliveries[i]);
            }
        }
    }
}

/// The stop handshake dispatches the queued messages in send order and runs
/// the stop hook exactly once, strictly after every delivery; it never runs
/// a tick.
pub proof fn lemma_stop_ordering<M>(s: ModelState<M>)
    requires
        s.phase != Phase::Terminated,
    ensures
        stop_spec(s).last() == Action::<M>::RunStop,
        forall|i: int|
            0 <= i < stop_spec(s).len() - 1 ==> (#[trigger] stop_spec(s)[i])
                != Action::<M>::RunStop,
        forall|i: int|
            0 <= i < stop_spec(s).len() ==> (#[trigger] stop_spec(s)[i]) != Action::<M>::RunTick,
        s.phase == Phase::Looping ==> stop_spec(s).take(s.pending.len() as int) == s.pending
            .map_values(|m: M| Action::<M>::Deliver(m)),
{
    let log = stop_spec(s);
    let deliveries = s.pending.map_values(|m: M| Action::<M>::Deliver(m));
    match s.phase {
        Phase::Initializing => {
            assert forall|i: int| 0 <= i < log.len() - 1 implies (#[trigger] log[i])
                != Action::<M>::RunStop by {
                if i == 0 {
                    assert(log[i] == Action::<M>::RunInit);
                } else {
                    assert(log[i] == deliveries[i - 1]);
                }
            }
            assert forall|i: int| 0 <= i < log.len() implies (#[trigger] log[i])
                != Action::<M>::RunTick by {
                if 0 < i < log.len() - 1 {
                    assert(log[i] == deliveries[i - 1]);
                }
            }
        },
        Phase::Looping => {
            assert(log.take(s.pending.len() as int) =~= deliveries);
            assert forall|i: int| 0 <= i < log.len() - 1 implies (#[trigger] log[i])
                != Action::<M>::RunStop by {
                assert(log[i] == deliveries[i]);
            }
            assert forall|i: int| 0 <= i < log.len() implies (#[trigger] log[i])
                != Action::<M>::RunTick by {
                if i < log.len() - 1 {
                    assert(log[i] == deliveries[i]);
                }
            }
        },
        Phase::Stopping => {},
        Phase::Terminated => {},
    }
}

/// The state and concatenated actions of `n` consecutive loop iterations.
pub open spec fn run_steps<M>(s: ModelState<M>, n: nat) -> (ModelState<M>, Seq<Action<M>>)
    decreases n,
{
    if n == 0 {
        (s, Seq::empty())
    } else {
        let (s1, log1) = step_spec(s);
        let (s2, log2) = run_steps(s1, (n - 1) as nat);
        (s2, log1 + log2)
    }
}

/// Tick cadence: an idle looping actor with no stop request runs exactly one
/// tick per iteration, each followed by one tick-interval sleep, and its
/// state does not change — so over `n` iterations (n * tick_interval
/// milliseconds of requested sleep) the tick hook runs exactly `n` times.
pub proof fn lemma_tick_cadence<M>(s: ModelState<M>, n: nat)
    requires
        s.phase == Phase::Looping,
        !s.stop_requested,
        s.pending.len() == 0,
    ensures
        run_steps(s, n).0 == s,
        run_steps(s, n).1.len() == 2 * n,
        forall|i: int|
            0 <= i < n ==> #[trigger] run_steps(s, n).1[2 * i] == Action::<M>::RunTick
                && run_steps(s, n).1[2 * i + 1] == Action::<M>::Sleep(s.tick_interval),
    decreases n,
{
    if n == 0 {
    } else {
        let (s1, log1) = step_spec(s);
        assert(s1 =~= s);
        assert(log1 =~= seq![Action::<M>::RunTick, Action::<M>::Sleep(s.tick_interval)]);
        lemma_tick_cadence::<M>(s, (n - 1) as nat);
        let (s2, log2) = run_steps(s1, (n - 1) as nat);
        assert forall|i: int| 0 <= i < n implies #[trigger] run_steps(s, n).1[2 * i]
            == Action::<M>::RunTick && run_steps(s, n).1[2 * i + 1] == Action::<M>::Sleep(
            s.tick_interval,
        ) by {
            if i > 0 {
                assert((log1 + log2)[2 * i] == log2[2 * (i - 1)]);
                assert((log1 + log2)[2 * i + 1] == log2[2 * (i - 1) + 1]);
            }
        }
    }
}

/// One iteration never loses or reorders messages: what was sent is what has
/// been delivered followed by what is still pending, before and after, and
/// already-delivered messages stay delivered in their order.
pub proof fn lemma_step_preserves_messages<M>(s: ModelState<M>)
    ensures
        step_spec(s).0.sent() == s.sent(),
        step_spec(s).0.delivered.take(s.delivered.len() as int) == s.delivered,
{
    assert(step_spec(s).0.sent() =~= s.sent());
    assert(step_spec(s).0.delivered.take(s.delivered.len() as int) =~= s.delivered);
}

} // verus!
