//! Ports of the local host: which one to use, and how to hold one as a guard against a second
//! instance.

use vstd::prelude::*;

verus! {

/// The port that the launcher holds while it runs.
pub const LAUNCHER_GUARD_PORT: u16 = 57320;

/// The port that the manager holds while it runs.
pub const MANAGER_GUARD_PORT: u16 = 57319;

/// The port to use in place of the requested one: on Windows, another one that is free if the
/// requested one cannot be bound, and everywhere else the requested one.
pub fn select_platform_loopback_port_with<B: Fn(u16) -> bool, F: Fn() -> u16>(
    requested: u16,
    is_windows: bool,
    can_bind: B,
    find_available: F,
) -> (port: u16)
    requires
        is_windows ==> call_requires(can_bind, (requested,)),
        is_windows ==> call_requires(find_available, ()),
    ensures
        !is_windows ==> port == requested,
        is_windows ==> {
            ||| call_ensures(can_bind, (requested,), true) && port == requested
            ||| call_ensures(can_bind, (requested,), false) && call_ensures(
                find_available,
                (),
                port,
            )
        },
{
    if !is_windows || can_bind(requested) {
        requested
    } else {
        find_available()
    }
}

/// Whether a port can be bound, where `bind` tries to. Port zero stands for any free port and is
/// not tried.
pub fn can_bind_loopback_port_with<B: Fn(u16) -> bool>(port: u16, bind: B) -> (bindable: bool)
    requires
        port != 0 ==> call_requires(bind, (port,)),
    ensures
        port == 0 ==> bindable,
        port != 0 ==> call_ensures(bind, (port,), bindable),
{
    port == 0 || bind(port)
}

/// How an attempt to bind a port ended.
#[derive(Debug, Clone, Copy, PartialEq, Eq)]
pub enum BindOutcome {
    Bound,
    AddressInUse,
    Failed,
}

/// Where the attempt to hold a guard port stands.
#[derive(Debug, Clone, Copy, PartialEq, Eq)]
pub enum GuardState {
    /// The guard port itself is being bound.
    BindingGuard,
    /// The guard port is taken, and is being asked whether anyone listens there.
    ProbingGuard,
    /// Nobody listens at the guard port, and any free port is being bound in its place.
    BindingOther,
    /// The guard port is held.
    HoldingGuard,
    /// Another port is held in place of the guard port.
    HoldingOther,
    /// No port is held, and the error of the last attempt to bind one is reported.
    Failed,
}

/// What came of the last attempt.
#[derive(Debug, Clone, Copy, PartialEq, Eq)]
pub enum GuardEvent {
    /// A port was to be bound.
    Bind(BindOutcome),
    /// A connection to the guard port was attempted, and was accepted or not.
    Probe(bool),
}

impl GuardState {
    /// Whether the attempt is over.
    pub open spec fn done(self) -> bool {
        self is HoldingGuard || self is HoldingOther || self is Failed
    }

    /// Whether this is an event that the state waits for.
    pub open spec fn awaits(self, event: GuardEvent) -> bool {
        match self {
            GuardState::BindingGuard | GuardState::BindingOther => event is Bind,
            GuardState::ProbingGuard => event is Probe,
            _ => false,
        }
    }

    /// The state after an event.
    pub open spec fn after(self, event: GuardEvent) -> GuardState {
        match (self, event) {
            (GuardState::BindingGuard, GuardEvent::Bind(BindOutcome::Bound)) =>
                GuardState::HoldingGuard,
            (GuardState::BindingGuard, GuardEvent::Bind(BindOutcome::AddressInUse)) =>
                GuardState::ProbingGuard,
            (GuardState::ProbingGuard, GuardEvent::Probe(false)) => GuardState::BindingOther,
            (GuardState::BindingOther, GuardEvent::Bind(BindOutcome::Bound)) =>
                GuardState::HoldingOther,
            _ => GuardState::Failed,
        }
    }

    /// The state after an event.
    pub fn next(self, event: GuardEvent) -> (state: GuardState)
        requires
            self.awaits(event),
        ensures
            state == self.after(event),
    {
        match (self, event) {
            (GuardState::BindingGuard, GuardEvent::Bind(BindOutcome::Bound)) =>
                GuardState::HoldingGuard,
            (GuardState::BindingGuard, GuardEvent::Bind(BindOutcome::AddressInUse)) =>
                GuardState::ProbingGuard,
            (GuardState::ProbingGuard, GuardEvent::Probe(false)) => GuardState::BindingOther,
            (GuardState::BindingOther, GuardEvent::Bind(BindOutcome::Bound)) =>
                GuardState::HoldingOther,
            _ => GuardState::Failed,
        }
    }
}

/// The state after a sequence of events.
pub open spec fn after_all(state: GuardState, events: Seq<GuardEvent>) -> GuardState
    decreases events.len(),
{
    if events.len() == 0 {
        state
    } else {
        after_all(state.after(events[0]), events.drop_first())
    }
}

/// Whether each event is one that the state at its time waits for.
pub open spec fn awaited(state: GuardState, events: Seq<GuardEvent>) -> bool
    decreases events.len(),
{
    events.len() > 0 ==> state.awaits(events[0]) && awaited(
        state.after(events[0]),
        events.drop_first(),
    )
}

/// The attempt to hold a guard port is over after three events at most. It ends with another port
/// than the guard port only if the guard port is taken and nobody listens there, so that two
/// instances never run at once while the first one answers.
pub proof fn law_guard_yields_to_a_listener(events: Seq<GuardEvent>)
    requires
        awaited(GuardState::BindingGuard, events),
    ensures
        events.len() <= 3,
        events.len() == 3 ==> after_all(GuardState::BindingGuard, events).done(),
        after_all(GuardState::BindingGuard, events) is HoldingOther <==> events == seq![
            GuardEvent::Bind(BindOutcome::AddressInUse),
            GuardEvent::Probe(false),
            GuardEvent::Bind(BindOutcome::Bound),
        ],
        after_all(GuardState::BindingGuard, events) is HoldingGuard <==> events == seq![
            GuardEvent::Bind(BindOutcome::Bound),
        ],
        events.contains(GuardEvent::Probe(true)) ==> after_all(
            GuardState::BindingGuard,
            events,
        ) is Failed,
{
    reveal_with_fuel(awaited, 5);
    reveal_with_fuel(after_all, 5);
    if events.len() > 0 {
        let second = events.drop_first();
        if second.len() > 0 {
            assert(second[0] == events[1]);
            let third = second.drop_first();
            if third.len() > 0 {
                assert(third[0] == events[2]);
                if third.drop_first().len() > 0 {
                    assert(third.drop_first()[0] == events[3]);
                }
            }
        }
    }
    let other = seq![
        GuardEvent::Bind(BindOutcome::AddressInUse),
        GuardEvent::Probe(false),
        GuardEvent::Bind(BindOutcome::Bound),
    ];
    let guard = seq![GuardEvent::Bind(BindOutcome::Bound)];
    if after_all(GuardState::BindingGuard, events) is HoldingOther {
        assert(events =~= other);
    }
    if after_all(GuardState::BindingGuard, events) is HoldingGuard {
        assert(events =~= guard);
    }
}

} // verus!
