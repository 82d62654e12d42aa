//! The perpetual reconcile chain of an installation: when it is armed, which ticks it
//! answers to, and how it is stopped.
//!
//! A tick in flight cannot be recalled. What stops a chain is its generation moving on: the
//! tick arrives with the old one and is dropped.

use vstd::multiset::Multiset;
use vstd::prelude::*;

use crate::fault::{terminal, Fault};
use crate::text::{
    ascii, decimal, decimal_text, parse_u64, said, spec_parse_u64, trim_trailing_slashes,
    without_trailing_slashes,
};

verus! {

/// What the chain's object holds. `tick_pending` promises that a tick for `generation` is
/// queued or delayed.
#[derive(Clone, Copy, Debug, PartialEq, Eq, Structural)]
pub struct SchedulerState {
    pub started: bool,
    pub tick_pending: bool,
    pub generation: u64,
}

impl Default for SchedulerState {
    fn default() -> (state: SchedulerState)
        ensures
            state == (SchedulerState { started: false, tick_pending: false, generation: 0 }),
    {
        SchedulerState { started: false, tick_pending: false, generation: 0 }
    }
}

impl SchedulerState {
    pub open spec fn spec_armed(generation: u64) -> SchedulerState {
        SchedulerState { started: true, tick_pending: true, generation }
    }

    /// A live chain with exactly one tick for `generation` on its way.
    pub fn armed(generation: u64) -> (state: SchedulerState)
        ensures
            state == SchedulerState::spec_armed(generation),
    {
        SchedulerState { started: true, tick_pending: true, generation }
    }
}

/// A tick, with the generation it was sent for. Ticks sent before generations have none.
#[derive(Clone, Copy, Debug, PartialEq, Eq, Structural)]
pub struct SchedulerTick {
    pub generation: Option<u64>,
}

/// What `next` a generation has, or the failure of one that has none.
pub open spec fn generation_after(current: u64, next: Result<u64, Fault>) -> bool {
    if current < u64::MAX {
        next == Ok::<u64, Fault>((current + 1) as u64)
    } else {
        terminal(next, "scheduler generation overflow"@)
    }
}

pub fn next_scheduler_generation(current: u64) -> (next: Result<u64, Fault>)
    ensures
        generation_after(current, next),
{
    match current.checked_add(1) {
        Some(next) => Ok(next),
        None => Err(Fault::Terminal("scheduler generation overflow".to_owned())),
    }
}

/// Arming a chain anew: under the next generation, or failing where there is none.
pub open spec fn armed_anew(current: u64, armed: Result<Option<SchedulerState>, Fault>) -> bool {
    if current < u64::MAX {
        armed == Ok::<Option<SchedulerState>, Fault>(
            Some(SchedulerState::spec_armed((current + 1) as u64)),
        )
    } else {
        terminal(armed, "scheduler generation overflow"@)
    }
}

/// Whether a start arms the chain, and with which generation. `None` means that a tick is
/// already on its way, so that starting again would fork a second chain.
pub fn scheduler_start_transition(state: SchedulerState) -> (armed: Result<
    Option<SchedulerState>,
    Fault,
>)
    ensures
        if state.started && state.tick_pending {
            armed == Ok::<Option<SchedulerState>, Fault>(None)
        } else if state.started && state.generation > 0 {
            armed == Ok::<Option<SchedulerState>, Fault>(
                Some(SchedulerState::spec_armed(state.generation)),
            )
        } else {
            armed_anew(state.generation, armed)
        },
{
    if state.started && state.tick_pending {
        return Ok(None);
    }
    if state.started && state.generation > 0 {
        return Ok(Some(SchedulerState::armed(state.generation)));
    }
    match next_scheduler_generation(state.generation) {
        Ok(generation) => Ok(Some(SchedulerState::armed(generation))),
        Err(fault) => Err(fault),
    }
}

/// Whether a tick re-arms the chain and sweeps, and with which generation. `None` drops the
/// tick: the chain is paused, the generation is stale, or a tick without one arrived while a
/// current tick is already on its way.
pub fn scheduler_tick_transition(state: SchedulerState, incoming: SchedulerTick) -> (armed: Result<
    Option<SchedulerState>,
    Fault,
>)
    ensures
        if !state.started {
            armed == Ok::<Option<SchedulerState>, Fault>(None)
        } else {
            match incoming.generation {
                Some(generation) => armed == Ok::<Option<SchedulerState>, Fault>(
                    if generation == state.generation {
                        Some(SchedulerState::spec_armed(generation))
                    } else {
                        None
                    },
                ),
                None => if state.tick_pending {
                    armed == Ok::<Option<SchedulerState>, Fault>(None)
                } else {
                    armed_anew(state.generation, armed)
                },
            }
        },
{
    if !state.started {
        return Ok(None);
    }
    match incoming.generation {
        Some(generation) => {
            if generation == state.generation {
                Ok(Some(SchedulerState::armed(generation)))
            } else {
                Ok(None)
            }
        },
        None => {
            if state.tick_pending {
                return Ok(None);
            }
            match next_scheduler_generation(state.generation) {
                Ok(generation) => Ok(Some(SchedulerState::armed(generation))),
                Err(fault) => Err(fault),
            }
        },
    }
}

/// Stops the chain, by moving its generation on.
pub fn scheduler_pause_transition(state: SchedulerState) -> (paused: Result<SchedulerState, Fault>)
    ensures
        if state.generation < u64::MAX {
            paused == Ok::<SchedulerState, Fault>(
                SchedulerState {
                    started: false,
                    tick_pending: false,
                    generation: (state.generation + 1) as u64,
                },
            )
        } else {
            terminal(paused, "scheduler generation overflow"@)
        },
{
    match next_scheduler_generation(state.generation) {
        Ok(generation) => Ok(SchedulerState { started: false, tick_pending: false, generation }),
        Err(fault) => Err(fault),
    }
}

/// What a start did.
#[derive(Clone, Copy, Debug, PartialEq, Eq, Structural)]
pub enum SchedulerStartOutcome {
    AlreadyArmed,
    Armed { generation: u64 },
}

impl SchedulerStartOutcome {
    pub fn outcome(&self) -> (line: String)
        ensures
            line@ == (match *self {
                SchedulerStartOutcome::AlreadyArmed => "already armed"@,
                SchedulerStartOutcome::Armed { generation } => "armed generation "@ + decimal(
                    generation as nat,
                ),
            }),
    {
        match self {
            SchedulerStartOutcome::AlreadyArmed => "already armed".to_owned(),
            SchedulerStartOutcome::Armed { generation } => {
                let mut line = "armed generation ".to_owned();
                line.append(decimal_text(*generation).as_str());
                line
            },
        }
    }
}

/// How a start goes on: nothing, or hold the state and send a tick for its generation now.
pub fn begin_start(state: SchedulerState) -> (begun: Result<
    (Option<SchedulerState>, SchedulerStartOutcome),
    Fault,
>)
    ensures
        exists|armed: Result<Option<SchedulerState>, Fault>| #[trigger]
            call_ensures(scheduler_start_transition, (state,), armed) && begun == (match armed {
                Err(fault) => Err(fault),
                Ok(None) => Ok((None, SchedulerStartOutcome::AlreadyArmed)),
                Ok(Some(next)) => Ok(
                    (
                        Some(next),
                        SchedulerStartOutcome::Armed { generation: next.generation },
                    ),
                ),
            }),
{
    let armed = scheduler_start_transition(state);
    assert(call_ensures(scheduler_start_transition, (state,), armed));
    match armed {
        Err(fault) => Err(fault),
        Ok(None) => Ok((None, SchedulerStartOutcome::AlreadyArmed)),
        Ok(Some(next)) => Ok(
            (Some(next), SchedulerStartOutcome::Armed { generation: next.generation }),
        ),
    }
}

/// What a tick did.
#[derive(Clone, Copy, Debug, PartialEq, Eq, Structural)]
pub enum SchedulerTickOutcome {
    /// The chain is paused or the tick is stale; nothing was touched.
    Dropped,
    Swept { repositories: usize },
}

impl SchedulerTickOutcome {
    pub fn outcome(&self) -> (line: String)
        ensures
            line@ == (match *self {
                SchedulerTickOutcome::Dropped => "dropped"@,
                SchedulerTickOutcome::Swept { repositories } => "swept "@ + decimal(
                    repositories as nat,
                ) + " repositories"@,
            }),
    {
        match self {
            SchedulerTickOutcome::Dropped => "dropped".to_owned(),
            SchedulerTickOutcome::Swept { repositories } => {
                let mut line = "swept ".to_owned();
                line.append(decimal_text(*repositories as u64).as_str());
                line.append(" repositories");
                line
            },
        }
    }
}

/// How a tick goes on.
#[derive(Clone, Copy, Debug, PartialEq, Eq, Structural)]
pub enum TickStart {
    /// Nothing is to be done: the tick is [`SchedulerTickOutcome::Dropped`].
    Drop,
    /// Hold the state and delay the next tick, and only then sweep.
    Sweep(ArmedTick),
}

/// A tick that has its successor. The chain survives a sweep that fails, since what it holds
/// and what it sent are never taken back.
#[derive(Clone, Copy, Debug, PartialEq, Eq, Structural)]
pub struct ArmedTick {
    pub state: SchedulerState,
}

impl ArmedTick {
    /// The one tick to delay.
    pub fn successor(&self) -> (tick: SchedulerTick)
        ensures
            tick.generation == Some(self.state.generation),
    {
        SchedulerTick { generation: Some(self.state.generation) }
    }

    /// What the tick did once the sweep is through.
    pub fn swept(self, repositories: usize) -> (outcome: SchedulerTickOutcome)
        ensures
            outcome == (SchedulerTickOutcome::Swept { repositories }),
    {
        SchedulerTickOutcome::Swept { repositories }
    }
}

pub fn begin_tick(state: SchedulerState, incoming: SchedulerTick) -> (start: Result<
    TickStart,
    Fault,
>)
    ensures
        exists|armed: Result<Option<SchedulerState>, Fault>| #[trigger]
            call_ensures(scheduler_tick_transition, (state, incoming), armed) && start == (
            match armed {
                Err(fault) => Err(fault),
                Ok(None) => Ok(TickStart::Drop),
                Ok(Some(next)) => Ok(TickStart::Sweep(ArmedTick { state: next })),
            }),
{
    let armed = scheduler_tick_transition(state, incoming);
    assert(call_ensures(scheduler_tick_transition, (state, incoming), armed));
    match armed {
        Err(fault) => Err(fault),
        Ok(None) => Ok(TickStart::Drop),
        Ok(Some(next)) => Ok(TickStart::Sweep(ArmedTick { state: next })),
    }
}

/// The installation an object key names.
pub fn installation_key(key: &str) -> (installation_id: Result<u64, Fault>)
    ensures
        match spec_parse_u64(key@) {
            Some(id) => installation_id == Ok::<u64, Fault>(id),
            None => terminal(installation_id, "installation key must be an integer"@),
        },
{
    match parse_u64(key) {
        Some(id) => Ok(id),
        None => Err(Fault::Terminal("installation key must be an integer".to_owned())),
    }
}

/// The JSON of an optional generation.
pub open spec fn generation_json(generation: Option<u64>) -> Seq<u8> {
    match generation {
        Some(generation) => ascii(decimal(generation as nat)),
        None => ascii("null"@),
    }
}

/// What `serde_json::from_slice` reads an optional generation as: nothing where the bytes are
/// not the JSON of one.
pub uninterp spec fn json_generation(bytes: Seq<u8>) -> Option<Option<u64>>;

/// Calls `serde_json::from_slice` for an `Option<u64>`. What it reads depends on the bytes
/// alone; the decimal digits of a number read as that number, and `null` as none. Which error
/// text goes with which malformed input is left unsaid.
#[verifier::external_body]
fn read_json_generation(bytes: &[u8]) -> (read: Result<Option<u64>, String>)
    ensures
        read is Err <==> json_generation(bytes@) is None,
        read is Ok ==> json_generation(bytes@) == Some(read->Ok_0),
        forall|generation: Option<u64>|
            bytes@ == #[trigger] generation_json(generation) ==> read is Ok && read->Ok_0
                == generation,
{
    serde_json::from_slice(bytes).map_err(|error| error.to_string())
}

/// Calls `serde_json::to_vec` on an `Option<u64>`, which writes a number in decimal and none
/// as `null`, and cannot fail on either.
#[verifier::external_body]
fn write_json_generation(generation: Option<u64>) -> (written: Result<Vec<u8>, String>)
    ensures
        written is Ok,
        written->Ok_0@ == generation_json(generation),
{
    serde_json::to_vec(&generation).map_err(|error| error.to_string())
}

impl SchedulerTick {
    /// The tick a payload is. An empty one is a tick without a generation.
    pub fn deserialize(bytes: &[u8]) -> (tick: Result<SchedulerTick, String>)
        ensures
            if bytes@.len() == 0 {
                tick == Ok::<SchedulerTick, String>(SchedulerTick { generation: None })
            } else {
                match json_generation(bytes@) {
                    Some(generation) => tick == Ok::<SchedulerTick, String>(
                        SchedulerTick { generation },
                    ),
                    None => tick is Err,
                }
            },
            forall|sent: Option<u64>|
                #![trigger generation_json(sent)]
                bytes@ == generation_json(sent) ==> tick == Ok::<SchedulerTick, String>(
                    (SchedulerTick { generation: sent }),
                ),
    {
        if bytes.len() == 0 {
            proof {
                lemma_generation_json();
            }
            return Ok(SchedulerTick { generation: None });
        }
        match read_json_generation(bytes) {
            Ok(generation) => Ok(SchedulerTick { generation }),
            Err(message) => Err(message),
        }
    }

    /// The payload of a tick.
    pub fn serialize(&self) -> (bytes: Result<Vec<u8>, String>)
        ensures
            bytes matches Ok(bytes) && bytes@ == generation_json(self.generation),
    {
        write_json_generation(self.generation)
    }
}

/// The JSON of a generation is never empty.
proof fn lemma_generation_json()
    ensures
        forall|generation: Option<u64>| (#[trigger] generation_json(generation)).len() > 0,
{
    reveal_strlit("null");
    assert forall|generation: Option<u64>| (#[trigger] generation_json(generation)).len() > 0 by {
        if let Some(generation) = generation {
            crate::text::lemma_decimal(generation as nat);
        }
    }
}

/// A tick read back from its payload is the tick.
pub proof fn law_a_tick_reads_back(
    tick: SchedulerTick,
    bytes: Vec<u8>,
    read: Result<SchedulerTick, String>,
    slice: &[u8],
)
    requires
        call_ensures(SchedulerTick::serialize, (&tick,), Ok(bytes)),
        slice@ == bytes@,
        call_ensures(SchedulerTick::deserialize, (slice,), read),
    ensures
        read == Ok::<SchedulerTick, String>(tick),
{
    assert(slice@ == generation_json(tick.generation));
}

/// Pausing a chain kills the tick it had in flight: whatever the chain is started as
/// afterwards, that tick is dropped.
pub proof fn law_a_paused_chains_tick_is_dropped(
    generation: u64,
    paused: SchedulerState,
    revived: SchedulerState,
    dropped_while_paused: Result<Option<SchedulerState>, Fault>,
    dropped_once_revived: Result<Option<SchedulerState>, Fault>,
)
    requires
        call_ensures(
            scheduler_pause_transition,
            (SchedulerState::spec_armed(generation),),
            Ok(paused),
        ),
        call_ensures(scheduler_start_transition, (paused,), Ok(Some(revived))),
        call_ensures(
            scheduler_tick_transition,
            (paused, SchedulerTick { generation: Some(generation) }),
            dropped_while_paused,
        ),
        call_ensures(
            scheduler_tick_transition,
            (revived, SchedulerTick { generation: Some(generation) }),
            dropped_once_revived,
        ),
    ensures
        dropped_while_paused == Ok::<Option<SchedulerState>, Fault>(None),
        dropped_once_revived == Ok::<Option<SchedulerState>, Fault>(None),
{
}

/// A tick that is answered leaves the chain armed with one successor for the generation it
/// holds, so a start after it, even after a sweep that failed, is no second chain.
pub proof fn law_an_answered_tick_leaves_one_successor(
    state: SchedulerState,
    incoming: SchedulerTick,
    armed: ArmedTick,
    restarted: Result<Option<SchedulerState>, Fault>,
    answered: Result<Option<SchedulerState>, Fault>,
)
    requires
        call_ensures(begin_tick, (state, incoming), Ok(TickStart::Sweep(armed))),
        call_ensures(scheduler_start_transition, (armed.state,), restarted),
        call_ensures(
            scheduler_tick_transition,
            (armed.state, SchedulerTick { generation: Some(armed.state.generation) }),
            answered,
        ),
    ensures
        armed.state.started,
        armed.state.tick_pending,
        restarted == Ok::<Option<SchedulerState>, Fault>(None),
        answered == Ok::<Option<SchedulerState>, Fault>(Some(armed.state)),
{
}

/// Generations only move forward: no transition takes a chain to an earlier one.
pub proof fn law_generations_are_monotonic(
    state: SchedulerState,
    incoming: SchedulerTick,
    next: SchedulerState,
)
    requires
        call_ensures(scheduler_start_transition, (state,), Ok(Some(next))) || call_ensures(
            scheduler_tick_transition,
            (state, incoming),
            Ok(Some(next)),
        ) || call_ensures(scheduler_pause_transition, (state,), Ok(next)),
    ensures
        next.generation >= state.generation,
{
}

/// A chain that runs at most once: a live one has exactly one tick in flight for its
/// generation, a stopped one and one that lost its tick have none, and no tick in flight is of
/// a generation to come.
pub open spec fn runs_once(state: SchedulerState, in_flight: Multiset<SchedulerTick>) -> bool {
    &&& in_flight.count(SchedulerTick { generation: Some(state.generation) }) == (
    if state.started && state.tick_pending {
        1nat
    } else {
        0
    })
    &&& forall|tick: SchedulerTick|
        #![trigger in_flight.count(tick)]
        in_flight.count(tick) > 0 ==> (tick.generation matches Some(generation) ==> generation
            <= state.generation)
}

/// An object that was never started has no chain.
pub proof fn law_a_fresh_object_has_no_chain(state: SchedulerState)
    requires
        call_ensures(SchedulerState::default, (), state),
    ensures
        runs_once(state, Multiset::empty()),
{
}

/// However often a chain is started, it is never forked.
pub proof fn law_a_start_never_forks_the_chain(
    state: SchedulerState,
    in_flight: Multiset<SchedulerTick>,
    armed: Option<SchedulerState>,
    outcome: SchedulerStartOutcome,
)
    requires
        runs_once(state, in_flight),
        call_ensures(begin_start, (state,), Ok((armed, outcome))),
    ensures
        match armed {
            Some(next) => runs_once(
                next,
                in_flight.insert(SchedulerTick { generation: Some(next.generation) }),
            ),
            None => runs_once(state, in_flight),
        },
{
    if let Some(next) = armed {
        let sent = SchedulerTick { generation: Some(next.generation) };
        assert(in_flight.count(sent) == 0);
        assert forall|tick: SchedulerTick|
            #![trigger in_flight.insert(sent).count(tick)]
            in_flight.insert(sent).count(tick) > 0 implies (tick.generation matches Some(
            generation,
        ) ==> generation <= next.generation) by {
            assert(tick == sent || in_flight.count(tick) > 0);
        }
    }
}

/// Whichever tick arrives, the chain goes on running at most once: an answered tick is
/// replaced by its one successor, and a dropped tick was of no live chain.
pub proof fn law_a_tick_never_forks_the_chain(
    state: SchedulerState,
    in_flight: Multiset<SchedulerTick>,
    arrived: SchedulerTick,
    start: TickStart,
)
    requires
        runs_once(state, in_flight),
        in_flight.count(arrived) > 0,
        call_ensures(begin_tick, (state, arrived), Ok(start)),
    ensures
        match start {
            TickStart::Drop => runs_once(state, in_flight.remove(arrived)),
            TickStart::Sweep(armed) => runs_once(
                armed.state,
                in_flight.remove(arrived).insert(
                    SchedulerTick { generation: Some(armed.state.generation) },
                ),
            ),
        },
{
    let left = in_flight.remove(arrived);
    assert forall|tick: SchedulerTick|
        #![trigger left.count(tick)]
        left.count(tick) > 0 implies (tick.generation matches Some(generation) ==> generation
        <= state.generation) by {
        assert(in_flight.count(tick) > 0);
    }
    if let TickStart::Sweep(armed) = start {
        let sent = SchedulerTick { generation: Some(armed.state.generation) };
        assert(armed.state.generation >= state.generation);
        assert forall|tick: SchedulerTick|
            #![trigger left.insert(sent).count(tick)]
            left.insert(sent).count(tick) > 0 implies (tick.generation matches Some(generation)
            ==> generation <= armed.state.generation) by {
            assert(tick == sent || left.count(tick) > 0);
        }
    }
}

/// A chain that is paused has no tick in flight that it would answer.
pub proof fn law_a_pause_ends_the_chain(
    state: SchedulerState,
    in_flight: Multiset<SchedulerTick>,
    paused: SchedulerState,
)
    requires
        runs_once(state, in_flight),
        call_ensures(scheduler_pause_transition, (state,), Ok(paused)),
    ensures
        !paused.started,
        runs_once(paused, in_flight),
{
    assert(in_flight.count(SchedulerTick { generation: Some(paused.generation) }) == 0);
}

/// Where Restate is reached to arm the chain at startup.
pub fn scheduler_start_url(ingress: Option<&str>) -> (url: String)
    ensures
        url@ == without_trailing_slashes(
            match said(ingress) {
                Some(ingress) => ingress,
                None => "http://127.0.0.1:8080"@,
            },
        ) + "/restate/send/SchedulerIngress/start"@,
{
    let ingress = match ingress {
        Some(ingress) => ingress,
        None => "http://127.0.0.1:8080",
    };
    let mut url = trim_trailing_slashes(ingress).to_owned();
    url.append("/restate/send/SchedulerIngress/start");
    url
}

/// A value that says something.
pub open spec fn non_empty(value: Option<String>) -> Option<String> {
    match value {
        Some(value) => if value@.len() > 0 {
            Some(value)
        } else {
            None
        },
        None => None,
    }
}

fn keep_non_empty(value: Option<String>) -> (kept: Option<String>)
    ensures
        kept == non_empty(value),
{
    match value {
        Some(value) => {
            if value.as_str().is_empty() {
                None
            } else {
                Some(value)
            }
        },
        None => None,
    }
}

/// The key Restate is authenticated to with at startup: the token, or else the API key.
pub fn scheduler_api_key(auth_token: Option<String>, api_key: Option<String>) -> (key: Option<
    String,
>)
    ensures
        key == (if non_empty(auth_token) is Some {
            non_empty(auth_token)
        } else {
            non_empty(api_key)
        }),
{
    match keep_non_empty(auth_token) {
        Some(token) => Some(token),
        None => keep_non_empty(api_key),
    }
}

/// How long the bootstrap waits before each attempt, in seconds.
pub const BOOTSTRAP_PAUSE_SECONDS: u64 = 2;

/// Whether the bootstrap is done after an attempt that was answered with a status, or not
/// answered at all: only an acceptance ends it.
pub fn scheduler_accepted(status: Option<u16>) -> (accepted: bool)
    ensures
        accepted == (status matches Some(status) && 200 <= status <= 299),
{
    match status {
        Some(status) => 200 <= status && status <= 299,
        None => false,
    }
}

/// The value of a variable that is to be warned about: one that is set to no number, and so
/// gives way to the default.
pub fn env_ignored(value: Option<&str>) -> (ignored: Option<&str>)
    ensures
        said(ignored) == (match said(value) {
            Some(value) => if spec_parse_u64(value) is None {
                Some(value)
            } else {
                None
            },
            None => None,
        }),
{
    match value {
        Some(value) => match parse_u64(value) {
            Some(_) => None,
            None => Some(value),
        },
        None => None,
    }
}

/// A variable is warned about exactly where it is set and its number is not used: the default
/// stands, whatever it is.
pub proof fn law_a_value_is_ignored_exactly_where_it_is_warned_about(
    value: Option<&str>,
    default: u64,
    number: u64,
    ignored: Option<&str>,
)
    requires
        call_ensures(env_u64, (value, default), number),
        call_ensures(env_ignored, (value,), ignored),
    ensures
        ignored is Some ==> number == default && said(ignored) == said(value),
        ignored is None && value is Some ==> spec_parse_u64(value->0@) == Some(number),
        value is None ==> ignored is None && number == default,
{
}

/// A number from the environment, or the default where it is absent or no number.
pub fn env_u64(value: Option<&str>, default: u64) -> (number: u64)
    ensures
        number == (match said(value) {
            Some(value) => match spec_parse_u64(value) {
                Some(number) => number,
                None => default,
            },
            None => default,
        }),
{
    match value {
        Some(value) => match parse_u64(value) {
            Some(number) => number,
            None => default,
        },
        None => default,
    }
}

/// A start arms a chain that has no tick on its way, and only such a one: a chain that lost its
/// tick goes on under its own generation, and one that was stopped or never ran begins anew
/// under the next. What is armed is live, with a tick of its generation on its way.
pub proof fn law_when_a_start_arms_the_chain(
    state: SchedulerState,
    armed: Result<Option<SchedulerState>, Fault>,
    begun: Result<(Option<SchedulerState>, SchedulerStartOutcome), Fault>,
)
    requires
        call_ensures(scheduler_start_transition, (state,), armed),
        call_ensures(begin_start, (state,), begun),
    ensures
        state.started && state.tick_pending ==> {
            &&& armed == Ok::<Option<SchedulerState>, Fault>(None)
            &&& begun == Ok::<(Option<SchedulerState>, SchedulerStartOutcome), Fault>(
                (None, SchedulerStartOutcome::AlreadyArmed),
            )
        },
        !(state.started && state.tick_pending) ==> {
            let generation = if state.started && state.generation > 0 {
                state.generation as int
            } else {
                state.generation + 1
            };
            if generation <= u64::MAX {
                &&& armed matches Ok(Some(next))
                &&& next.started && next.tick_pending && next.generation == generation
                &&& begun matches Ok((Some(held), SchedulerStartOutcome::Armed { generation: told }))
                &&& held.started && held.tick_pending && held.generation == generation
                &&& told == generation
            } else {
                &&& armed matches Err(Fault::Terminal(message))
                &&& message@ == "scheduler generation overflow"@
                &&& begun matches Err(Fault::Terminal(message))
                &&& message@ == "scheduler generation overflow"@
            }
        },
{
}

/// A tick is answered exactly where the chain is live and the tick is its own: one of its very
/// generation, or, while none is on its way, one of no generation, which begins the chain anew
/// under the next. Every other tick is dropped.
pub proof fn law_which_ticks_are_answered(
    state: SchedulerState,
    incoming: SchedulerTick,
    armed: Result<Option<SchedulerState>, Fault>,
    start: Result<TickStart, Fault>,
    tick: SchedulerTick,
    at: ArmedTick,
)
    requires
        call_ensures(scheduler_tick_transition, (state, incoming), armed),
        call_ensures(begin_tick, (state, incoming), start),
        call_ensures(ArmedTick::successor, (&at,), tick),
    ensures
        !state.started || (incoming.generation matches Some(generation) && generation
            != state.generation) || (incoming.generation is None && state.tick_pending) ==> {
            &&& armed == Ok::<Option<SchedulerState>, Fault>(None)
            &&& start == Ok::<TickStart, Fault>(TickStart::Drop)
        },
        state.started && incoming.generation == Some(state.generation) ==> {
            &&& armed matches Ok(Some(next))
            &&& next.started && next.tick_pending && next.generation == state.generation
            &&& start matches Ok(TickStart::Sweep(swept))
            &&& swept.state.started && swept.state.tick_pending && swept.state.generation
                == state.generation
        },
        state.started && incoming.generation is None && !state.tick_pending && state.generation
            < u64::MAX ==> {
            &&& armed matches Ok(Some(next))
            &&& next.started && next.tick_pending && next.generation == state.generation + 1
            &&& start matches Ok(TickStart::Sweep(swept))
            &&& swept.state.started && swept.state.tick_pending && swept.state.generation
                == state.generation + 1
        },
        state.started && incoming.generation is None && !state.tick_pending && state.generation
            == u64::MAX ==> {
            &&& armed matches Err(Fault::Terminal(message))
            &&& message@ == "scheduler generation overflow"@
            &&& start matches Err(Fault::Terminal(message))
            &&& message@ == "scheduler generation overflow"@
        },
        tick.generation == Some(at.state.generation),
{
}

/// A pause stops the chain under the next generation, with no tick promised; a generation that
/// has none to follow it fails for good.
pub proof fn law_what_a_pause_leaves(
    state: SchedulerState,
    paused: Result<SchedulerState, Fault>,
    next: Result<u64, Fault>,
)
    requires
        call_ensures(scheduler_pause_transition, (state,), paused),
        call_ensures(next_scheduler_generation, (state.generation,), next),
    ensures
        state.generation < u64::MAX ==> {
            &&& paused matches Ok(held)
            &&& !held.started && !held.tick_pending && held.generation == state.generation + 1
            &&& next matches Ok(generation)
            &&& generation == state.generation + 1
        },
        state.generation == u64::MAX ==> {
            &&& paused matches Err(Fault::Terminal(message))
            &&& message@ == "scheduler generation overflow"@
            &&& next matches Err(Fault::Terminal(message))
            &&& message@ == "scheduler generation overflow"@
        },
{
}

/// What a start and a tick say they did.
pub proof fn law_what_a_start_and_a_tick_say(
    generation: u64,
    repositories: usize,
    at: ArmedTick,
    already: String,
    armed: String,
    dropped: String,
    swept: String,
    outcome: SchedulerTickOutcome,
)
    requires
        call_ensures(
            SchedulerStartOutcome::outcome,
            (&SchedulerStartOutcome::AlreadyArmed,),
            already,
        ),
        call_ensures(
            SchedulerStartOutcome::outcome,
            (&SchedulerStartOutcome::Armed { generation },),
            armed,
        ),
        call_ensures(SchedulerTickOutcome::outcome, (&SchedulerTickOutcome::Dropped,), dropped),
        call_ensures(
            SchedulerTickOutcome::outcome,
            (&SchedulerTickOutcome::Swept { repositories },),
            swept,
        ),
        call_ensures(ArmedTick::swept, (at, repositories), outcome),
    ensures
        already@ == "already armed"@,
        armed@ == "armed generation "@ + decimal(generation as nat),
        dropped@ == "dropped"@,
        swept@ == "swept "@ + decimal(repositories as nat) + " repositories"@,
        outcome == (SchedulerTickOutcome::Swept { repositories }),
{
}

/// A tick travels as the digits of its generation, or as `null` where it has none; and an empty
/// payload is a tick without one.
pub proof fn law_how_a_tick_travels(
    generation: u64,
    with: Result<Vec<u8>, String>,
    without: Result<Vec<u8>, String>,
    empty: &[u8],
    of_empty: Result<SchedulerTick, String>,
)
    requires
        call_ensures(
            SchedulerTick::serialize,
            (&SchedulerTick { generation: Some(generation) },),
            with,
        ),
        call_ensures(SchedulerTick::serialize, (&SchedulerTick { generation: None },), without),
        empty@.len() == 0,
        call_ensures(SchedulerTick::deserialize, (empty,), of_empty),
    ensures
        with matches Ok(bytes) && bytes@ == decimal(generation as nat).map_values(
            |c: char| c as u8,
        ),
        without matches Ok(bytes) && bytes@ == "null"@.map_values(|c: char| c as u8),
        of_empty == Ok::<SchedulerTick, String>(SchedulerTick { generation: None }),
{
    assert(ascii(decimal(generation as nat)) =~= decimal(generation as nat).map_values(
        |c: char| c as u8,
    ));
    assert(ascii("null"@) =~= "null"@.map_values(|c: char| c as u8));
}

/// An installation's object is keyed by the installation's number; a key that is none fails for
/// good.
pub proof fn law_an_installations_key_is_its_number(
    key: &str,
    number: Option<u64>,
    named: Result<u64, Fault>,
)
    requires
        call_ensures(parse_u64, (key,), number),
        call_ensures(installation_key, (key,), named),
    ensures
        number matches Some(id) ==> named == Ok::<u64, Fault>(id),
        number is None ==> (named matches Err(Fault::Terminal(message)) && message@
            == "installation key must be an integer"@),
{
}

/// The chain is armed at startup through the ingress, which is the one on this machine where
/// none is named, with the token, or else the API key, or else nothing; every two seconds, until
/// an answer from 200 to 299.
pub proof fn law_how_the_chain_is_armed_at_startup(
    ingress: &str,
    default: &str,
    trimmed: &str,
    of_default: &str,
    named: String,
    unnamed: String,
    auth_token: Option<String>,
    api_key: Option<String>,
    key: Option<String>,
    status: Option<u16>,
    accepted: bool,
)
    requires
        default@ == "http://127.0.0.1:8080"@,
        call_ensures(trim_trailing_slashes, (ingress,), trimmed),
        call_ensures(trim_trailing_slashes, (default,), of_default),
        call_ensures(scheduler_start_url, (Some(ingress),), named),
        call_ensures(scheduler_start_url, (None::<&str>,), unnamed),
        call_ensures(scheduler_api_key, (auth_token, api_key), key),
        call_ensures(scheduler_accepted, (status,), accepted),
    ensures
        named@ == trimmed@ + "/restate/send/SchedulerIngress/start"@,
        unnamed@ == of_default@ + "/restate/send/SchedulerIngress/start"@,
        if auth_token is Some && auth_token->0@.len() > 0 {
            key == auth_token
        } else if api_key is Some && api_key->0@.len() > 0 {
            key == api_key
        } else {
            key is None
        },
        accepted <==> status is Some && 200 <= status->0 < 300,
        BOOTSTRAP_PAUSE_SECONDS == 2,
{
}

/// A number from the environment is the number its text is, and the default where it is not set
/// or is no number.
pub proof fn law_a_number_from_the_environment(
    value: &str,
    number: Option<u64>,
    default: u64,
    set: u64,
    unset: u64,
)
    requires
        call_ensures(parse_u64, (value,), number),
        call_ensures(env_u64, (Some(value), default), set),
        call_ensures(env_u64, (None::<&str>, default), unset),
    ensures
        number matches Some(given) ==> set == given,
        number is None ==> set == default,
        unset == default,
{
}

} // verus!
