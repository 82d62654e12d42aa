use dependaboard::fault::Fault;
use dependaboard::scheduler::{
    begin_start, begin_tick, env_ignored, env_u64, installation_key, next_scheduler_generation,
    scheduler_accepted, scheduler_api_key, scheduler_pause_transition,
    scheduler_start_transition, scheduler_start_url, scheduler_tick_transition,
    SchedulerStartOutcome, SchedulerState, SchedulerTick, SchedulerTickOutcome, TickStart,
    BOOTSTRAP_PAUSE_SECONDS,
};

fn tick(generation: Option<u64>) -> SchedulerTick {
    SchedulerTick { generation }
}

fn generations_are_monotonic() {
    assert_eq!(next_scheduler_generation(41).unwrap(), 42);
    assert!(next_scheduler_generation(u64::MAX).is_err());
}

#[test]
fn installation_sync_scheduler_generations_are_monotonic_and_cannot_wrap() {
    generations_are_monotonic();
}

#[test]
fn main_scheduler_generations_are_monotonic_and_cannot_wrap() {
    generations_are_monotonic();
    assert_eq!(
        scheduler_pause_transition(SchedulerState::armed(u64::MAX)),
        Err(Fault::Terminal("scheduler generation overflow".to_owned()))
    );
}

fn current_tick_rearms() {
    assert_eq!(
        scheduler_tick_transition(SchedulerState::armed(42), tick(Some(42))).unwrap(),
        Some(SchedulerState { started: true, tick_pending: true, generation: 42 })
    );
}

#[test]
fn installation_sync_current_tick_rearms_the_chain_without_clearing_the_pending_flag() {
    current_tick_rearms();
}

#[test]
fn main_current_tick_rearms_the_chain_without_clearing_the_pending_flag() {
    current_tick_rearms();
}

fn stale_or_paused_ticks_are_dropped() {
    assert_eq!(
        scheduler_tick_transition(SchedulerState::armed(43), tick(Some(42))).unwrap(),
        None
    );
    let paused = SchedulerState { started: false, tick_pending: false, generation: 43 };
    assert_eq!(scheduler_tick_transition(paused, tick(Some(43))).unwrap(), None);
}

#[test]
fn installation_sync_stale_or_paused_ticks_are_dropped_without_touching_state() {
    stale_or_paused_ticks_are_dropped();
}

#[test]
fn main_stale_or_paused_ticks_are_dropped_without_touching_state() {
    stale_or_paused_ticks_are_dropped();
}

fn legacy_ticks_yield_or_adopt() {
    assert_eq!(
        scheduler_tick_transition(SchedulerState::armed(42), tick(None)).unwrap(),
        None
    );
    let orphaned = SchedulerState { started: true, tick_pending: false, generation: 42 };
    assert_eq!(
        scheduler_tick_transition(orphaned, tick(None)).unwrap(),
        Some(SchedulerState::armed(43))
    );
}

#[test]
fn installation_sync_legacy_ticks_yield_to_a_pending_tick_or_adopt_a_fresh_generation() {
    legacy_ticks_yield_or_adopt();
}

#[test]
fn main_legacy_ticks_yield_to_a_pending_tick_or_adopt_a_fresh_generation() {
    legacy_ticks_yield_or_adopt();
}

/// What a tick asked of its object.
#[derive(Default)]
struct Recorded {
    persisted: Option<SchedulerState>,
    scheduled: Vec<u64>,
    swept: bool,
}

/// Runs a tick against a sweep that goes as scripted.
fn run_tick(
    state: SchedulerState,
    incoming: SchedulerTick,
    sweep: Result<usize, &str>,
) -> (Recorded, Result<SchedulerTickOutcome, String>) {
    let mut recorded = Recorded::default();
    match begin_tick(state, incoming).unwrap() {
        TickStart::Drop => (recorded, Ok(SchedulerTickOutcome::Dropped)),
        TickStart::Sweep(armed) => {
            recorded.persisted = Some(armed.state);
            recorded.scheduled.extend(armed.successor().generation);
            recorded.swept = true;
            let outcome = match sweep {
                Ok(repositories) => Ok(armed.swept(repositories)),
                Err(message) => Err(message.to_owned()),
            };
            (recorded, outcome)
        }
    }
}

fn failed_sweep_leaves_the_next_tick_scheduled() {
    let (recorded, outcome) = run_tick(
        SchedulerState::armed(42),
        tick(Some(42)),
        Err("GitHub read failed with HTTP 401: Bad credentials"),
    );

    assert!(outcome.is_err(), "the failed sweep stays visible");
    assert_eq!(recorded.scheduled, vec![42]);
    assert_eq!(recorded.persisted, Some(SchedulerState::armed(42)));
}

#[test]
fn installation_sync_a_terminal_sweep_failure_leaves_the_next_tick_scheduled() {
    failed_sweep_leaves_the_next_tick_scheduled();
}

#[test]
fn main_a_terminal_sweep_failure_leaves_the_next_tick_scheduled() {
    failed_sweep_leaves_the_next_tick_scheduled();
}

fn successful_tick_schedules_one_successor() {
    let (recorded, outcome) = run_tick(SchedulerState::armed(42), tick(Some(42)), Ok(3));

    assert_eq!(outcome, Ok(SchedulerTickOutcome::Swept { repositories: 3 }));
    assert_eq!(outcome.unwrap().outcome(), "swept 3 repositories");
    assert!(recorded.swept);
    assert_eq!(recorded.scheduled, vec![42]);
    assert_eq!(recorded.persisted, Some(SchedulerState::armed(42)));
}

#[test]
fn installation_sync_a_successful_tick_sweeps_and_schedules_exactly_one_successor() {
    successful_tick_schedules_one_successor();
}

#[test]
fn main_a_successful_tick_sweeps_and_schedules_exactly_one_successor() {
    successful_tick_schedules_one_successor();
}

fn stale_tick_does_nothing() {
    let (recorded, outcome) = run_tick(SchedulerState::armed(43), tick(Some(42)), Ok(3));

    assert_eq!(outcome, Ok(SchedulerTickOutcome::Dropped));
    assert_eq!(outcome.unwrap().outcome(), "dropped");
    assert!(!recorded.swept);
    assert!(recorded.scheduled.is_empty());
    assert_eq!(recorded.persisted, None);
}

#[test]
fn installation_sync_a_stale_tick_neither_sweeps_nor_schedules() {
    stale_tick_does_nothing();
}

#[test]
fn main_a_stale_tick_neither_sweeps_nor_schedules() {
    stale_tick_does_nothing();
}

fn start_after_a_failed_sweep_is_a_no_op() {
    let (recorded, _) = run_tick(
        SchedulerState::armed(42),
        tick(Some(42)),
        Err("projection store is read-only"),
    );

    let after_failure = recorded.persisted.expect("the tick persisted its state");
    assert_eq!(scheduler_start_transition(after_failure).unwrap(), None);
    assert_eq!(
        begin_start(after_failure).unwrap(),
        (None, SchedulerStartOutcome::AlreadyArmed)
    );
}

#[test]
fn installation_sync_start_is_a_no_op_on_the_state_a_failed_sweep_leaves_behind() {
    start_after_a_failed_sweep_is_a_no_op();
}

#[test]
fn main_start_is_a_no_op_on_the_state_a_failed_sweep_leaves_behind() {
    start_after_a_failed_sweep_is_a_no_op();
}

fn start_revives() {
    let paused = SchedulerState { started: false, tick_pending: false, generation: 42 };
    assert_eq!(
        scheduler_start_transition(paused).unwrap(),
        Some(SchedulerState::armed(43))
    );
    let orphaned = SchedulerState { started: true, tick_pending: false, generation: 42 };
    assert_eq!(
        scheduler_start_transition(orphaned).unwrap(),
        Some(SchedulerState::armed(42))
    );
    assert_eq!(
        scheduler_start_transition(SchedulerState::default()).unwrap(),
        Some(SchedulerState::armed(1))
    );
}

#[test]
fn installation_sync_start_revives_a_paused_or_orphaned_chain_with_a_valid_generation() {
    start_revives();
}

#[test]
fn main_start_revives_a_paused_or_orphaned_chain_with_a_valid_generation() {
    start_revives();
}

#[test]
fn a_start_says_what_it_armed() {
    let (state, outcome) = begin_start(SchedulerState::default()).unwrap();
    assert_eq!(state, Some(SchedulerState::armed(1)));
    assert_eq!(outcome.outcome(), "armed generation 1");
    assert_eq!(SchedulerStartOutcome::AlreadyArmed.outcome(), "already armed");
}

#[test]
fn pausing_kills_the_tick_in_flight_and_lets_start_arm_a_fresh_chain() {
    let paused = scheduler_pause_transition(SchedulerState::armed(42)).unwrap();

    assert_eq!(
        paused,
        SchedulerState { started: false, tick_pending: false, generation: 43 }
    );
    assert_eq!(
        scheduler_tick_transition(paused, tick(Some(42))).unwrap(),
        None,
        "the tick the chain had in flight carries the old generation and dies on arrival"
    );
    assert_eq!(
        scheduler_start_transition(paused).unwrap(),
        Some(SchedulerState::armed(44))
    );
}

fn tick_accepts_legacy_and_current_inputs() {
    assert_eq!(SchedulerTick::deserialize(b"").unwrap(), tick(None));
    assert_eq!(SchedulerTick::deserialize(b"42").unwrap(), tick(Some(42)));
}

#[test]
fn installation_sync_scheduler_tick_accepts_legacy_empty_and_generation_inputs() {
    tick_accepts_legacy_and_current_inputs();
}

#[test]
fn main_scheduler_tick_accepts_legacy_empty_and_generation_inputs() {
    tick_accepts_legacy_and_current_inputs();
}

#[test]
fn a_tick_reads_back_from_what_it_is_written_as() {
    for generation in [None, Some(0), Some(42), Some(u64::MAX)] {
        let bytes = tick(generation).serialize().unwrap();
        assert_eq!(SchedulerTick::deserialize(&bytes).unwrap(), tick(generation));
    }
    assert_eq!(tick(Some(42)).serialize().unwrap(), b"42".to_vec());
    assert_eq!(tick(None).serialize().unwrap(), b"null".to_vec());
    assert!(SchedulerTick::deserialize(b"-1").is_err());
    assert!(SchedulerTick::deserialize(b"soon").is_err());
}

#[test]
fn an_installation_key_is_a_number() {
    assert_eq!(installation_key("42"), Ok(42));
    assert_eq!(
        installation_key("acme"),
        Err(Fault::Terminal("installation key must be an integer".to_owned()))
    );
}

#[test]
fn the_scheduler_is_started_at_the_ingress() {
    assert_eq!(
        scheduler_start_url(None),
        "http://127.0.0.1:8080/restate/send/SchedulerIngress/start"
    );
    assert_eq!(
        scheduler_start_url(Some("https://ingress.example/")),
        "https://ingress.example/restate/send/SchedulerIngress/start"
    );
    assert!(scheduler_accepted(Some(202)));
    assert!(!scheduler_accepted(Some(404)));
    assert!(!scheduler_accepted(None));
    assert!(BOOTSTRAP_PAUSE_SECONDS > 0);
}

#[test]
fn an_api_key_stands_in_for_an_absent_or_empty_token() {
    let some = |text: &str| Some(text.to_owned());
    assert_eq!(scheduler_api_key(some("token"), some("key")), some("token"));
    assert_eq!(scheduler_api_key(some(""), some("key")), some("key"));
    assert_eq!(scheduler_api_key(None, some("key")), some("key"));
    assert_eq!(scheduler_api_key(None, some("")), None);
}

#[test]
fn a_number_from_the_environment_falls_back_to_its_default() {
    assert_eq!(env_u64(Some("30"), 20), 30);
    assert_eq!(env_u64(Some("soon"), 20), 20);
    assert_eq!(env_u64(Some("18446744073709551616"), 20), 20);
    assert_eq!(env_u64(None, 20), 20);
}

#[test]
fn a_value_that_is_no_number_is_warned_about() {
    assert_eq!(env_ignored(Some("soon")), Some("soon"));
    assert_eq!(env_ignored(Some("")), Some(""));
    assert_eq!(env_ignored(Some("18446744073709551616")), Some("18446744073709551616"));
    assert_eq!(env_ignored(Some("30")), None);
    assert_eq!(env_ignored(None), None);
}

#[test]
fn no_order_of_starts_ticks_and_pauses_forks_the_chain() {
    // Every sequence of six events, with the ticks delivered oldest or newest first.
    for script in 0..4u32.pow(6) {
        let mut state = SchedulerState::default();
        let mut in_flight: Vec<SchedulerTick> = Vec::new();
        for place in 0..6 {
            match (script / 4u32.pow(place)) % 4 {
                0 => {
                    if let (Some(next), _) = begin_start(state).unwrap() {
                        state = next;
                        in_flight.push(tick(Some(next.generation)));
                    }
                }
                1 => state = scheduler_pause_transition(state).unwrap(),
                newest => {
                    if in_flight.is_empty() {
                        continue;
                    }
                    let at = if newest == 3 { in_flight.len() - 1 } else { 0 };
                    let arrived = in_flight.remove(at);
                    if let TickStart::Sweep(armed) = begin_tick(state, arrived).unwrap() {
                        state = armed.state;
                        in_flight.push(armed.successor());
                    }
                }
            }
            let live = in_flight
                .iter()
                .filter(|sent| **sent == tick(Some(state.generation)))
                .count();
            assert_eq!(live, usize::from(state.started), "{script}");
        }
    }
}
