use codex_plus_core::http_client::client_settings;
use codex_plus_core::ports::{
    can_bind_loopback_port_with, select_platform_loopback_port_with, BindOutcome, GuardEvent,
    GuardState, LAUNCHER_GUARD_PORT, MANAGER_GUARD_PORT,
};

#[test]
fn guard_ports() {
    assert_eq!(LAUNCHER_GUARD_PORT, 57320);
    assert_eq!(MANAGER_GUARD_PORT, 57319);
}

#[test]
fn requested_port_is_kept_outside_of_windows() {
    assert_eq!(select_platform_loopback_port_with(9229, false, |_| false, || 1), 9229);
}

#[test]
fn requested_port_is_kept_if_it_can_be_bound() {
    assert_eq!(select_platform_loopback_port_with(9229, true, |port| port == 9229, || 1), 9229);
}

#[test]
fn another_port_is_taken_if_the_requested_one_cannot_be_bound() {
    assert_eq!(select_platform_loopback_port_with(9229, true, |_| false, || 40000), 40000);
}

#[test]
fn guard_port_is_held() {
    let state = GuardState::BindingGuard.next(GuardEvent::Bind(BindOutcome::Bound));
    assert_eq!(state, GuardState::HoldingGuard);
}

#[test]
fn guard_port_with_a_listener_is_left_alone() {
    let state = GuardState::BindingGuard.next(GuardEvent::Bind(BindOutcome::AddressInUse));
    assert_eq!(state, GuardState::ProbingGuard);
    assert_eq!(state.next(GuardEvent::Probe(true)), GuardState::Failed);
}

#[test]
fn guard_port_without_a_listener_is_replaced() {
    let state = GuardState::ProbingGuard.next(GuardEvent::Probe(false));
    assert_eq!(state, GuardState::BindingOther);
    assert_eq!(state.next(GuardEvent::Bind(BindOutcome::Bound)), GuardState::HoldingOther);
    assert_eq!(state.next(GuardEvent::Bind(BindOutcome::AddressInUse)), GuardState::Failed);
    assert_eq!(state.next(GuardEvent::Bind(BindOutcome::Failed)), GuardState::Failed);
}

#[test]
fn guard_port_that_cannot_be_bound_is_an_error() {
    let state = GuardState::BindingGuard.next(GuardEvent::Bind(BindOutcome::Failed));
    assert_eq!(state, GuardState::Failed);
}

#[test]
fn settings_of_the_client() {
    let settings = client_settings("  Agent/2 ", "1.2.3");
    assert_eq!(settings.user_agent, "Agent/2");
    assert_eq!(settings.connect_timeout, 30);
    assert_eq!(settings.timeout, 300);
    assert_eq!(settings.tcp_keepalive, 60);
    assert_eq!(settings.pool_idle_timeout, 120);
    assert_eq!(settings.pool_max_idle_per_host, 32);
    assert_eq!(client_settings(" \t", "1.2.3").user_agent, "CodexPlusPlus/1.2.3");
}

#[test]
fn port_zero_can_always_be_bound() {
    assert!(can_bind_loopback_port_with(0, |_| false));
    assert!(can_bind_loopback_port_with(1, |port| port == 1));
    assert!(!can_bind_loopback_port_with(2, |port| port == 1));
}
