//! Event definitions, the per-message program and the pipeline that runs it.
//!
//! A pipeline is written here as a machine: it is told what has happened (a
//! message has come, the targets have been called, the drain signal has
//! fired) and answers what to do next. The caller does the waiting, the
//! sending and the acknowledging; the order in which they happen is decided,
//! and proved, here.

use vstd::prelude::*;

pub mod process;
pub mod sender;
pub mod trigger;
pub mod utils;

use process::model::ItemView;
use process::operation::{executed, program_effect, run_program, Op};
use process::State;
use sender::{Payload, SenderConfig};
use trigger::Trigger;

verus! {

/// The definition of one pipeline: where its events come from, the program
/// that is run on each, and where the results go.
#[derive(Debug)]
pub struct Event {
    pub name: String,
    pub trigger: Vec<Trigger>,
    pub process: Option<Vec<Op>>,
    pub target: Vec<SenderConfig>,
}

impl Event {
    /// The program of the definition; without one, the program that does
    /// nothing.
    pub open spec fn program(self) -> Seq<Op> {
        match self.process {
            Some(ops) => ops@,
            None => Seq::empty(),
        }
    }
}

/// Starts the pipelines of all definitions. It holds nothing itself.
#[derive(Debug)]
pub struct Executor {}

impl Executor {
    pub fn new() -> (r: Self) {
        Executor {  }
    }
}

/// Where a pipeline stands.
#[derive(Debug, Clone, Copy, PartialEq, Eq, Structural)]
pub enum Phase {
    /// Waiting for a message or for the drain signal.
    Waiting,
    /// A message has been run through the program; its payload is on the
    /// way to the targets.
    Sending,
    /// The message is being acknowledged.
    Acking,
    /// No more messages are taken; the pullers are being waited for.
    Joining,
    /// The pipeline has stopped.
    Stopped,
}

/// What a pipeline is told.
#[derive(Debug)]
pub enum Signal {
    /// The drain signal has fired.
    Drain,
    /// A message with these bytes has been taken from the queue.
    Message(Vec<u8>),
    /// Every target has been called and has answered or failed.
    Sent,
    /// The message has been acknowledged.
    Acked,
    /// Every puller has ended.
    Joined,
}

/// What a pipeline asks for.
#[derive(Debug)]
pub enum Action {
    /// Wait for the drain signal and for the next message, the drain signal
    /// first.
    Wait,
    /// Send the payload to every target, with the state at hand.
    Send { payload: Payload, state: State },
    /// Acknowledge the message.
    Ack,
    /// Wait for the pullers to end.
    Join,
    /// Nothing is left to do.
    Finish,
    /// Go on with what was asked for before.
    Keep,
}

/// What a signal is worth.
pub enum SignalView {
    Drain,
    Message(Seq<u8>),
    Sent,
    Acked,
    Joined,
}

/// What an action is worth.
pub enum ActionView {
    Wait,
    Send { payload: Seq<u8>, state: Map<Seq<char>, ItemView> },
    Ack,
    Join,
    Finish,
    Keep,
}

impl View for Signal {
    type V = SignalView;

    open spec fn view(&self) -> SignalView {
        match self {
            Signal::Drain => SignalView::Drain,
            Signal::Message(bytes) => SignalView::Message(bytes@),
            Signal::Sent => SignalView::Sent,
            Signal::Acked => SignalView::Acked,
            Signal::Joined => SignalView::Joined,
        }
    }
}

impl View for Action {
    type V = ActionView;

    open spec fn view(&self) -> ActionView {
        match self {
            Action::Wait => ActionView::Wait,
            Action::Send { payload, state } => ActionView::Send {
                payload: payload@,
                state: state@,
            },
            Action::Ack => ActionView::Ack,
            Action::Join => ActionView::Join,
            Action::Finish => ActionView::Finish,
            Action::Keep => ActionView::Keep,
        }
    }
}

/// The part of a pipeline that changes: where it stands, and whether the
/// drain signal has fired.
pub struct Machine {
    pub phase: Phase,
    pub draining: bool,
}

/// A pipeline that has just been made.
pub open spec fn fresh() -> Machine {
    Machine { phase: Phase::Waiting, draining: false }
}

/// One step of a pipeline with the program `ops`: the machine after the
/// signal, and the action that answers it.
///
/// The drain signal ends the waiting at once; while a message is in hand it
/// is only noted, and takes effect when the message has been acknowledged.
/// A message is run through the program from the empty state; if the
/// program fails nothing is sent, and the message is acknowledged all the
/// same. A signal that does not fit the phase changes nothing.
pub open spec fn next(ops: Seq<Op>, m: Machine, signal: SignalView) -> (Machine, ActionView) {
    match (m.phase, signal) {
        (Phase::Waiting, SignalView::Drain) => (
            Machine { phase: Phase::Joining, draining: true },
            ActionView::Join,
        ),
        (_, SignalView::Drain) => (Machine { phase: m.phase, draining: true }, ActionView::Keep),
        (Phase::Waiting, SignalView::Message(bytes)) => match program_effect(
            ops,
            bytes,
            Map::empty(),
        ) {
            Ok((payload, state)) => (
                Machine { phase: Phase::Sending, draining: m.draining },
                ActionView::Send { payload, state },
            ),
            Err(_) => (Machine { phase: Phase::Acking, draining: m.draining }, ActionView::Ack),
        },
        (Phase::Sending, SignalView::Sent) => (
            Machine { phase: Phase::Acking, draining: m.draining },
            ActionView::Ack,
        ),
        (Phase::Acking, SignalView::Acked) => if m.draining {
            (Machine { phase: Phase::Joining, draining: true }, ActionView::Join)
        } else {
            (Machine { phase: Phase::Waiting, draining: false }, ActionView::Wait)
        },
        (Phase::Joining, SignalView::Joined) => (
            Machine { phase: Phase::Stopped, draining: m.draining },
            ActionView::Finish,
        ),
        _ => (m, ActionView::Keep),
    }
}

/// The pipeline of one definition.
#[derive(Debug)]
pub struct Pipeline {
    event: Event,
    phase: Phase,
    draining: bool,
}

impl Pipeline {
    /// The definition that the pipeline runs.
    pub closed spec fn event(&self) -> Event {
        self.event
    }

    /// Where the pipeline stands, and whether it is draining.
    pub closed spec fn machine(&self) -> Machine {
        Machine { phase: self.phase, draining: self.draining }
    }

    /// A pipeline for the definition. It waits for its first message.
    pub fn new(event: Event) -> (r: Self)
        ensures
            r.event() == event,
            r.machine() == fresh(),
    {
        Pipeline { event, phase: Phase::Waiting, draining: false }
    }

    /// The definition that the pipeline runs.
    pub fn definition(&self) -> (r: &Event)
        ensures
            *r == self.event(),
    {
        &self.event
    }

    /// Where the pipeline stands.
    pub fn phase(&self) -> (r: Phase)
        ensures
            r == self.machine().phase,
    {
        self.phase
    }

    /// The first thing to do: wait.
    pub fn start(&self) -> (r: Action)
        ensures
            r@ == ActionView::Wait,
    {
        Action::Wait
    }

    /// Tells the pipeline what has happened, and gives what to do next.
    pub fn step(&mut self, signal: Signal) -> (action: Action)
        ensures
            final(self).event() == old(self).event(),
            (final(self).machine(), action@) == next(
                old(self).event().program(),
                old(self).machine(),
                signal@,
            ),
    {
        match signal {
            Signal::Drain => {
                self.draining = true;
                match self.phase {
                    Phase::Waiting => {
                        self.phase = Phase::Joining;
                        Action::Join
                    },
                    _ => Action::Keep,
                }
            },
            Signal::Message(bytes) => match self.phase {
                Phase::Waiting => {
                    let outcome = match &self.event.process {
                        Some(ops) => run_program(ops, Payload::new(bytes)),
                        None => {
                            let ops: Vec<Op> = Vec::new();
                            run_program(&ops, Payload::new(bytes))
                        },
                    };
                    match outcome {
                        Ok((payload, state)) => {
                            self.phase = Phase::Sending;
                            Action::Send { payload, state }
                        },
                        Err(_) => {
                            self.phase = Phase::Acking;
                            Action::Ack
                        },
                    }
                },
                _ => Action::Keep,
            },
            Signal::Sent => match self.phase {
                Phase::Sending => {
                    self.phase = Phase::Acking;
                    Action::Ack
                },
                _ => Action::Keep,
            },
            Signal::Acked => match self.phase {
                Phase::Acking => {
                    if self.draining {
                        self.phase = Phase::Joining;
                        Action::Join
                    } else {
                        self.phase = Phase::Waiting;
                        Action::Wait
                    }
                },
                _ => Action::Keep,
            },
            Signal::Joined => match self.phase {
                Phase::Joining => {
                    self.phase = Phase::Stopped;
                    Action::Finish
                },
                _ => Action::Keep,
            },
        }
    }
}

/// The machine after a run of signals, and the actions that answered them.
pub open spec fn run(ops: Seq<Op>, m: Machine, signals: Seq<SignalView>) -> (
    Machine,
    Seq<ActionView>,
)
    decreases signals.len(),
{
    if signals.len() == 0 {
        (m, Seq::empty())
    } else {
        let (before, actions) = run(ops, m, signals.drop_last());
        let (after, action) = next(ops, before, signals.last());
        (after, actions.push(action))
    }
}

/// Whether an action may come next in a phase: a pipeline that waits takes
/// a message in hand (to send it, or to acknowledge it where the program
/// failed) or begins to stop; a payload that was sent is acknowledged, and
/// nothing else; after the acknowledgement the pipeline waits again or
/// begins to stop; a pipeline that is stopping finishes.
pub open spec fn may_follow(phase: Phase, action: ActionView) -> bool {
    match phase {
        Phase::Waiting => action is Send || action is Ack || action is Join,
        Phase::Sending => action is Ack,
        Phase::Acking => action is Wait || action is Join,
        Phase::Joining => action is Finish,
        Phase::Stopped => false,
    }
}

/// The phase that an action leads to.
pub open spec fn phase_after(action: ActionView, phase: Phase) -> Phase {
    match action {
        ActionView::Wait => Phase::Waiting,
        ActionView::Send { .. } => Phase::Sending,
        ActionView::Ack => Phase::Acking,
        ActionView::Join => Phase::Joining,
        ActionView::Finish => Phase::Stopped,
        ActionView::Keep => phase,
    }
}

/// Whether a list of actions is in order from a phase on: each action but
/// `Keep` may follow the phase that the one before it led to.
pub open spec fn in_order(phase: Phase, actions: Seq<ActionView>) -> bool
    decreases actions.len(),
{
    if actions.len() == 0 {
        true
    } else {
        let first = actions[0];
        (first is Keep || may_follow(phase, first)) && in_order(
            phase_after(first, phase),
            actions.skip(1),
        )
    }
}

/// A pipeline that waits is not draining: the drain signal ends the waiting.
pub open spec fn sound(m: Machine) -> bool {
    m.phase is Waiting ==> !m.draining
}

/// One step keeps the order: the action is `Keep`, or one that may follow
/// the phase, and the machine is then in the phase that the action leads to.
pub proof fn law_step_in_order(ops: Seq<Op>, m: Machine, signal: SignalView)
    requires
        sound(m),
    ensures
        sound(next(ops, m, signal).0),
        next(ops, m, signal).1 is Keep || may_follow(m.phase, next(ops, m, signal).1),
        next(ops, m, signal).0.phase == phase_after(next(ops, m, signal).1, m.phase),
{
}

/// Joining two lists of actions that are in order gives one that is.
pub proof fn lemma_in_order_push(phase: Phase, actions: Seq<ActionView>, action: ActionView)
    requires
        in_order(phase, actions),
        action is Keep || may_follow(end_phase(phase, actions), action),
    ensures
        in_order(phase, actions.push(action)),
        end_phase(phase, actions.push(action)) == phase_after(action, end_phase(phase, actions)),
    decreases actions.len(),
{
    if actions.len() == 0 {
        let rest = actions.push(action).skip(1);
        assert(rest =~= Seq::<ActionView>::empty());
        assert(in_order(phase_after(action, phase), rest));
        assert(end_phase(phase_after(action, phase), rest) == phase_after(action, phase));
        assert(actions.push(action)[0] == action);
    } else {
        assert(actions.push(action).skip(1) =~= actions.skip(1).push(action));
        lemma_in_order_push(phase_after(actions[0], phase), actions.skip(1), action);
    }
}

/// The phase that a list of actions leads to from a phase.
pub open spec fn end_phase(phase: Phase, actions: Seq<ActionView>) -> Phase
    decreases actions.len(),
{
    if actions.len() == 0 {
        phase
    } else {
        end_phase(phase_after(actions[0], phase), actions.skip(1))
    }
}

/// Whatever a pipeline is told, in whatever order, what it asks for is in
/// order: a payload that was sent is acknowledged before anything else is
/// asked for, and once; the pullers are waited for only when no message is
/// in hand; the pipeline finishes only after that.
pub proof fn law_run_in_order(ops: Seq<Op>, signals: Seq<SignalView>)
    ensures
        in_order(Phase::Waiting, run(ops, fresh(), signals).1),
        end_phase(Phase::Waiting, run(ops, fresh(), signals).1) == run(
            ops,
            fresh(),
            signals,
        ).0.phase,
        sound(run(ops, fresh(), signals).0),
    decreases signals.len(),
{
    if signals.len() > 0 {
        law_run_in_order(ops, signals.drop_last());
        let (before, actions) = run(ops, fresh(), signals.drop_last());
        law_step_in_order(ops, before, signals.last());
        lemma_in_order_push(Phase::Waiting, actions, next(ops, before, signals.last()).1);
    }
}

/// The drain signal ends the waiting at once: a pipeline that waits asks to
/// join the pullers, and finishes as soon as they have ended.
pub proof fn law_drain_ends_waiting(ops: Seq<Op>, m: Machine)
    requires
        m.phase is Waiting,
    ensures
        next(ops, m, SignalView::Drain).1 is Join,
        next(ops, next(ops, m, SignalView::Drain).0, SignalView::Joined).1 is Finish,
        next(ops, next(ops, m, SignalView::Drain).0, SignalView::Joined).0.phase is Stopped,
{
}

/// The drain signal does not disturb a message in hand: the pipeline goes
/// on, acknowledges the message when the targets have been called, and
/// only then begins to stop.
pub proof fn law_drain_keeps_message_in_hand(ops: Seq<Op>, m: Machine)
    requires
        m.phase is Sending,
    ensures
        next(ops, m, SignalView::Drain).1 is Keep,
        next(ops, m, SignalView::Drain).0.phase is Sending,
        run(
            ops,
            m,
            seq![SignalView::Drain, SignalView::Sent, SignalView::Acked, SignalView::Joined],
        ).1 == seq![ActionView::Keep, ActionView::Ack, ActionView::Join, ActionView::Finish],
{
    let signals = seq![SignalView::Drain, SignalView::Sent, SignalView::Acked, SignalView::Joined];
    let s3 = signals.drop_last();
    let s2 = s3.drop_last();
    let s1 = s2.drop_last();
    assert(s1.drop_last() =~= Seq::<SignalView>::empty());
    assert(run(ops, m, s1.drop_last()).1 =~= Seq::<ActionView>::empty());
    assert(s1.last() == SignalView::Drain);
    assert(s2.last() == SignalView::Sent);
    assert(s3.last() == SignalView::Acked);
    assert(signals.last() == SignalView::Joined);
    assert(run(ops, m, s1).1 =~= seq![ActionView::Keep]);
    assert(run(ops, m, s2).1 =~= seq![ActionView::Keep, ActionView::Ack]);
    assert(run(ops, m, s3).1 =~= seq![ActionView::Keep, ActionView::Ack, ActionView::Join]);
}

/// Firing the drain signal again changes nothing.
pub proof fn law_drain_is_idempotent(ops: Seq<Op>, m: Machine)
    ensures
        next(ops, next(ops, m, SignalView::Drain).0, SignalView::Drain).0 == next(
            ops,
            m,
            SignalView::Drain,
        ).0,
        next(ops, next(ops, m, SignalView::Drain).0, SignalView::Drain).1 is Keep,
{
}

/// The targets are called with what the program made of the message.
pub proof fn law_send_carries_program_result(ops: Seq<Op>, m: Machine, bytes: Seq<u8>)
    requires
        m.phase is Waiting,
    ensures
        match program_effect(ops, bytes, Map::empty()) {
            Ok((payload, state)) => next(ops, m, SignalView::Message(bytes)).1
                == (ActionView::Send { payload, state }),
            Err(_) => next(ops, m, SignalView::Message(bytes)).1 is Ack,
        },
{
}

} // verus!
