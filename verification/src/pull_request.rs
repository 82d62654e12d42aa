//! One pull request's durable object: its canonical snapshot, its history, and every
//! decision its handlers take between the calls they make.
//!
//! Each handler is a chain of values. A value says what to do next and takes back how that
//! went; what comes after it cannot be had before. A call that fails ends the handler with
//! that failure, and what it had not yet been told to write stays unwritten: a row and the
//! object's state go together or not at all.

use vstd::prelude::*;

use crate::fault::{terminal, Fault};
use crate::github::{
    action_result, http_failure, merge_result, mutation_came_to, read_result, Merged, Settled,
};
use crate::model::{
    outcome_detail, outcome_text, rejected, request_key, ActionOutcome, CommandRequest,
    MergeMethod, MergeRequest, PrKey, PrRecord, PrTarget, RejectReason, RepoRecord, SyncRequest,
    UpdateBranchRequest,
};
use crate::text::{short_sha, spec_short_sha};

verus! {

/// One line of a pull request's history.
#[derive(Debug, PartialEq, Eq)]
pub struct ActionLog {
    pub at: u64,
    pub action: String,
    pub detail: String,
}

impl Clone for ActionLog {
    fn clone(&self) -> (copy: Self)
        ensures
            copy == *self,
    {
        ActionLog { at: self.at, action: self.action.clone(), detail: self.detail.clone() }
    }
}

/// What the object holds between handlers.
#[derive(Clone, Debug, PartialEq, Eq)]
pub struct PrState {
    pub snapshot: Option<PrRecord>,
    pub last_synced_at: Option<u64>,
    /// A trailing sync is scheduled, and events inside the debounce window wait for it.
    pub sync_pending: bool,
    pub history: Vec<ActionLog>,
    pub completed_sync_ids: Vec<String>,
}

/// A fresh object.
pub open spec fn is_fresh(state: PrState) -> bool {
    &&& state.snapshot is None
    &&& state.last_synced_at is None
    &&& !state.sync_pending
    &&& state.history@ == Seq::<ActionLog>::empty()
    &&& state.completed_sync_ids@ == Seq::<String>::empty()
}

impl Default for PrState {
    fn default() -> (state: PrState)
        ensures
            is_fresh(state),
    {
        PrState {
            snapshot: None,
            last_synced_at: None,
            sync_pending: false,
            history: Vec::new(),
            completed_sync_ids: Vec::new(),
        }
    }
}

/// The state a handler begins with: what the object holds, or a fresh object's.
pub open spec fn begins_with(held: Option<PrState>, state: PrState) -> bool {
    match held {
        Some(held) => state == held,
        None => is_fresh(state),
    }
}

fn held_or_fresh(held: Option<PrState>) -> (state: PrState)
    ensures
        begins_with(held, state),
{
    match held {
        Some(held) => held,
        None => PrState::default(),
    }
}

/// A history with one more line.
pub open spec fn logged(
    after: Seq<ActionLog>,
    before: Seq<ActionLog>,
    at: u64,
    action: Seq<char>,
    detail: Seq<char>,
) -> bool {
    &&& after.len() == before.len() + 1
    &&& after.drop_last() == before
    &&& after.last().at == at
    &&& after.last().action@ == action
    &&& after.last().detail@ == detail
}

impl PrState {
    /// Adds a line to the history.
    pub fn push_history(&mut self, log: ActionLog)
        ensures
            final(self).history@ == old(self).history@.push(log),
            final(self).snapshot == old(self).snapshot,
            final(self).last_synced_at == old(self).last_synced_at,
            final(self).sync_pending == old(self).sync_pending,
            final(self).completed_sync_ids == old(self).completed_sync_ids,
    {
        self.history.push(log);
    }

    /// Notes that the refresh somebody waits for is done.
    pub fn complete_sync(&mut self, completion_id: String)
        ensures
            final(self).completed_sync_ids@ == old(self).completed_sync_ids@.push(completion_id),
            final(self).snapshot == old(self).snapshot,
            final(self).last_synced_at == old(self).last_synced_at,
            final(self).sync_pending == old(self).sync_pending,
            final(self).history == old(self).history,
    {
        self.completed_sync_ids.push(completion_id);
    }
}

/// A sync asked for inside the debounce window waits, unless it was asked for by hand.
pub open spec fn is_debounced(
    bypass_debounce: bool,
    last_synced_at: Option<u64>,
    now: u64,
    debounce_seconds: u64,
) -> bool {
    &&& !bypass_debounce
    &&& last_synced_at matches Some(last)
    &&& (if now > last {
        now - last
    } else {
        0
    }) < debounce_seconds
}

pub fn should_debounce_sync(
    bypass_debounce: bool,
    last_synced_at: Option<u64>,
    now: u64,
    debounce_seconds: u64,
) -> (debounced: bool)
    ensures
        debounced == is_debounced(bypass_debounce, last_synced_at, now, debounce_seconds),
{
    !bypass_debounce && (match last_synced_at {
        Some(last) => now.saturating_sub(last) < debounce_seconds,
        None => false,
    })
}

/// What one sync did.
#[derive(Debug, PartialEq, Eq)]
pub enum SyncOutcome {
    /// Coalesced behind the trailing sync that is (now) scheduled.
    Debounced,
    Synced { head_sha: String },
    /// GitHub no longer serves the pull request; its row and state are gone.
    Deleted,
}

impl SyncOutcome {
    pub open spec fn spec_text(self) -> Seq<char> {
        match self {
            SyncOutcome::Debounced => "debounced"@,
            SyncOutcome::Synced { head_sha } => "synced at "@ + spec_short_sha(head_sha@),
            SyncOutcome::Deleted => "deleted; no longer an open Dependabot pull request"@,
        }
    }

    pub fn outcome(&self) -> (line: String)
        ensures
            line@ == self.spec_text(),
    {
        match self {
            SyncOutcome::Debounced => "debounced".to_owned(),
            SyncOutcome::Synced { head_sha } => {
                let mut line = "synced at ".to_owned();
                line.append(short_sha(head_sha.as_str()));
                line
            },
            SyncOutcome::Deleted => "deleted; no longer an open Dependabot pull request".to_owned(),
        }
    }
}

/// How a sync begins.
#[derive(Debug, PartialEq, Eq)]
pub enum SyncStart {
    /// A trailing sync is already scheduled: nothing is to be done.
    Coalesced,
    /// Hold `state` and send `request` to the object again after `after_seconds`.
    Trailing { state: PrState, request: SyncRequest, after_seconds: u64 },
    /// Hold the state, then read the pull request from GitHub.
    Read(SyncRead),
}

impl SyncStart {
    /// What the sync did, where it ends here: one that is held back, first of its storm or not,
    /// is debounced.
    pub fn ended(&self) -> (outcome: Option<SyncOutcome>)
        ensures
            outcome == (match *self {
                SyncStart::Coalesced => Some(SyncOutcome::Debounced),
                SyncStart::Trailing { .. } => Some(SyncOutcome::Debounced),
                SyncStart::Read(_) => None,
            }),
    {
        match self {
            SyncStart::Coalesced => Some(SyncOutcome::Debounced),
            SyncStart::Trailing { .. } => Some(SyncOutcome::Debounced),
            SyncStart::Read(_) => None,
        }
    }
}

/// A sync that is to read GitHub. Its state, with no trailing sync pending, is held before
/// the read, so an event arriving meanwhile schedules the next one.
#[derive(Debug, PartialEq, Eq)]
pub struct SyncRead {
    pub request: SyncRequest,
    pub state: PrState,
}

/// A state with the pending flag set as given and all else as it was.
pub open spec fn with_pending(state: PrState, sync_pending: bool) -> PrState {
    PrState { sync_pending, ..state }
}

/// Whether and how a sync runs: inside the debounce window the first event schedules one
/// trailing sync and the rest coalesce behind it.
pub fn begin_sync(
    request: SyncRequest,
    held: Option<PrState>,
    now: u64,
    debounce_seconds: u64,
) -> (start: SyncStart)
    ensures
        exists|state: PrState| #[trigger]
            begins_with(held, state) && start == (if is_debounced(
                request.bypass_debounce,
                state.last_synced_at,
                now,
                debounce_seconds,
            ) {
                if state.sync_pending {
                    SyncStart::Coalesced
                } else {
                    SyncStart::Trailing {
                        state: with_pending(state, true),
                        request,
                        after_seconds: debounce_seconds,
                    }
                }
            } else {
                SyncStart::Read(SyncRead { request, state: with_pending(state, false) })
            }),
{
    let mut state = held_or_fresh(held);
    let ghost began = state;
    assert(begins_with(held, began));
    if should_debounce_sync(
        request.bypass_debounce,
        state.last_synced_at,
        now,
        debounce_seconds,
    ) {
        if state.sync_pending {
            return SyncStart::Coalesced;
        }
        state.sync_pending = true;
        return SyncStart::Trailing { state, request, after_seconds: debounce_seconds };
    }
    state.sync_pending = false;
    SyncStart::Read(SyncRead { request, state })
}

/// What a sync does with what GitHub said.
#[derive(Debug, PartialEq, Eq)]
pub enum SyncWrite {
    /// Drop the row, and go on from there.
    Delete(SyncDelete),
    /// Write the snapshot to the row, and go on from there.
    Upsert(SyncUpsert),
}

/// A row on its way out of the projection, and what the object holds until it has gone.
#[derive(Debug, PartialEq, Eq)]
pub struct SyncDelete {
    pub key: PrKey,
    pub state: PrState,
}

impl SyncDelete {
    /// What the object then holds, and how the sync ends: with the row gone there is nothing
    /// to hold, and a store that refuses leaves what was held for the retry.
    pub fn dropped<E>(self, dropped: Result<(), E>) -> (end: (
        Option<PrState>,
        Result<SyncOutcome, E>,
    ))
        ensures
            end == (match dropped {
                Ok(()) => (None, Ok(SyncOutcome::Deleted)),
                Err(error) => (Some(self.state), Err(error)),
            }),
    {
        match dropped {
            Ok(()) => (None, Ok(SyncOutcome::Deleted)),
            Err(error) => (Some(self.state), Err(error)),
        }
    }
}

/// A snapshot on its way to the projection.
#[derive(Debug, PartialEq, Eq)]
pub struct SyncUpsert {
    pub snapshot: PrRecord,
    pub state: PrState,
    pub completion_id: Option<String>,
}

impl SyncRead {
    /// Whether the object has read the pull request before, so that a 404 means it is gone
    /// rather than that the read was not allowed.
    pub fn known_resource(&self) -> (known: bool)
        ensures
            known == self.state.snapshot is Some,
    {
        self.state.snapshot.is_some()
    }

    /// A pull request that GitHub no longer serves, or that is not Dependabot's, is deleted;
    /// a snapshot goes to the row; anything else fails.
    pub fn fetched(self, fetched: Settled<Option<PrRecord>>) -> (write: Result<SyncWrite, Fault>)
        ensures
            match fetched {
                Settled::Done(Some(snapshot)) => write == Ok::<SyncWrite, Fault>(
                    SyncWrite::Upsert(
                        SyncUpsert {
                            snapshot,
                            state: self.state,
                            completion_id: self.request.completion_id,
                        },
                    ),
                ),
                Settled::Done(None) => write == Ok::<SyncWrite, Fault>(
                    SyncWrite::Delete(
                        SyncDelete { key: self.request.spec_key(), state: self.state },
                    ),
                ),
                Settled::Rejected { reason, .. } => if reason is NotFound {
                    write == Ok::<SyncWrite, Fault>(
                        SyncWrite::Delete(
                            SyncDelete { key: self.request.spec_key(), state: self.state },
                        ),
                    )
                } else {
                    terminal(write, reason.spec_text())
                },
                Settled::Fatal { response } => terminal(
                    write,
                    http_failure("GitHub read failed with HTTP "@, response),
                ),
                Settled::StaleSha { .. } => terminal(
                    write,
                    "unexpected stale SHA while reading GitHub"@,
                ),
            },
    {
        let snapshot = match fetched {
            Settled::Rejected { reason: RejectReason::NotFound, .. } => None,
            fetched => match read_result(fetched) {
                Ok(snapshot) => snapshot,
                Err(fault) => {
                    return Err(fault);
                },
            },
        };
        match snapshot {
            None => Ok(
                SyncWrite::Delete(
                    SyncDelete { key: request_key(&self.request), state: self.state },
                ),
            ),
            Some(snapshot) => Ok(
                SyncWrite::Upsert(
                    SyncUpsert {
                        snapshot,
                        state: self.state,
                        completion_id: self.request.completion_id,
                    },
                ),
            ),
        }
    }
}

impl SyncUpsert {
    /// The state of an object that has made the snapshot its own.
    pub open spec fn is_held_as(self, state: PrState) -> bool {
        &&& state.snapshot == Some(self.snapshot)
        &&& state.last_synced_at == Some(self.snapshot.synced_at)
        &&& state.sync_pending == self.state.sync_pending
        &&& logged(
            state.history@,
            self.state.history@,
            self.snapshot.synced_at,
            "sync"@,
            "canonical snapshot at "@ + spec_short_sha(self.snapshot.head_sha@),
        )
        &&& state.completed_sync_ids@ == (match self.completion_id {
            Some(completion_id) => self.state.completed_sync_ids@.push(completion_id),
            None => self.state.completed_sync_ids@,
        })
    }

    /// What the object then holds, and how the sync ends: with the row written the snapshot is
    /// the object's own, and a store that refuses leaves what was held for the retry.
    pub fn projected<E>(self, written: Result<(), E>) -> (end: (PrState, Result<SyncOutcome, E>))
        ensures
            match written {
                Ok(()) => self.is_held_as(end.0) && end.1 == Ok::<SyncOutcome, E>(
                    SyncOutcome::Synced { head_sha: self.snapshot.head_sha },
                ),
                Err(error) => end == (self.state, Err::<SyncOutcome, E>(error)),
            },
    {
        let SyncUpsert { snapshot, state, completion_id } = self;
        let mut state = state;
        if let Err(error) = written {
            return (state, Err(error));
        }
        let mut detail = "canonical snapshot at ".to_owned();
        detail.append(short_sha(snapshot.head_sha.as_str()));
        let head_sha = snapshot.head_sha.clone();
        state.last_synced_at = Some(snapshot.synced_at);
        state.push_history(ActionLog { at: snapshot.synced_at, action: "sync".to_owned(), detail });
        state.snapshot = Some(snapshot);
        if let Some(completion_id) = completion_id {
            state.complete_sync(completion_id);
        }
        assert(state.history@.drop_last() == self.state.history@);
        (state, Ok(SyncOutcome::Synced { head_sha }))
    }
}

/// What an object was told about why its pull request is gone. A webhook knows GitHub closed
/// it and says nothing; a sweep names the instant its listing started.
#[derive(Clone, Copy, Debug, PartialEq, Eq, Structural)]
pub struct ClosedRequest {
    pub synced_before: Option<u64>,
}

impl Default for ClosedRequest {
    fn default() -> (request: ClosedRequest)
        ensures
            request.synced_before is None,
    {
        ClosedRequest { synced_before: None }
    }
}

/// What the closing of a pull request did.
#[derive(Clone, Copy, Debug, PartialEq, Eq, Structural)]
pub enum ClosedOutcome {
    /// Row and state are gone.
    Retired,
    /// A sweep's fence found the pull request synced since the sweep began; it is open again.
    Kept,
}

impl ClosedOutcome {
    pub open spec fn spec_text(self) -> Seq<char> {
        match self {
            ClosedOutcome::Retired => "retired"@,
            ClosedOutcome::Kept => "kept; synced since the sweep began"@,
        }
    }

    pub fn outcome(&self) -> (line: String)
        ensures
            line@ == self.spec_text(),
    {
        match self {
            ClosedOutcome::Retired => "retired".to_owned(),
            ClosedOutcome::Kept => "kept; synced since the sweep began".to_owned(),
        }
    }
}

/// A pull request synced at or after a sweep's fence outlives the sweep's closing of it.
pub open spec fn outlives(last_synced_at: Option<u64>, synced_before: Option<u64>) -> bool {
    synced_before matches Some(fence) && last_synced_at matches Some(last) && last >= fence
}

/// When the object was last synced, if it holds anything.
pub open spec fn last_synced(held: Option<PrState>) -> Option<u64> {
    match held {
        Some(state) => state.last_synced_at,
        None => None,
    }
}

/// Whether a closing retires the pull request, or a sweep's fence spares it.
pub fn closed_retires(held: &Option<PrState>, request: ClosedRequest) -> (retires: bool)
    ensures
        retires == !outlives(last_synced(*held), request.synced_before),
{
    match request.synced_before {
        None => true,
        Some(synced_before) => match held {
            Some(state) => match state.last_synced_at {
                Some(last) => last < synced_before,
                None => true,
            },
            None => true,
        },
    }
}

/// How a closing begins.
#[derive(Debug, PartialEq, Eq)]
pub enum ClosedStart {
    /// It ends here: the row stays, and so does what the object holds.
    End { held: Option<PrState>, outcome: ClosedOutcome },
    /// Drop the row, and go on from there.
    Delete(ClosedDelete),
}

/// The row of a closed pull request on its way out of the projection, and what the object holds
/// until it has gone.
#[derive(Debug, PartialEq, Eq)]
pub struct ClosedDelete {
    pub key: PrKey,
    pub held: Option<PrState>,
}

impl ClosedDelete {
    /// What the object then holds, and how the closing ends: with the row gone there is nothing
    /// to hold, and a store that refuses leaves what was held for the retry.
    pub fn dropped<E>(self, dropped: Result<(), E>) -> (end: (
        Option<PrState>,
        Result<ClosedOutcome, E>,
    ))
        ensures
            end == (match dropped {
                Ok(()) => (None, Ok(ClosedOutcome::Retired)),
                Err(error) => (self.held, Err(error)),
            }),
    {
        match dropped {
            Ok(()) => (None, Ok(ClosedOutcome::Retired)),
            Err(error) => (self.held, Err(error)),
        }
    }
}

/// How the closing of the pull request `key` begins, given what the object holds.
pub open spec fn closing_begins(
    key: PrKey,
    held: Option<PrState>,
    request: ClosedRequest,
) -> ClosedStart {
    if outlives(last_synced(held), request.synced_before) {
        ClosedStart::End { held, outcome: ClosedOutcome::Kept }
    } else {
        ClosedStart::Delete(ClosedDelete { key, held })
    }
}

/// Begins the closing of the object named `key`, given what the object holds.
pub fn begin_closed(key: &str, held: Option<PrState>, request: ClosedRequest) -> (start: Result<
    ClosedStart,
    Fault,
>)
    ensures
        match PrKey::spec_parse(key@) {
            None => terminal(start, "invalid pull request key: "@ + key@),
            Some(key) => start == Ok::<ClosedStart, Fault>(closing_begins(key, held, request)),
        },
{
    match PrKey::parse(key) {
        None => {
            let mut message = "invalid pull request key: ".to_owned();
            message.append(key);
            Err(Fault::Terminal(message))
        },
        Some(key) => {
            if closed_retires(&held, request) {
                Ok(ClosedStart::Delete(ClosedDelete { key, held }))
            } else {
                Ok(ClosedStart::End { held, outcome: ClosedOutcome::Kept })
            }
        },
    }
}

/// Whether a target names the pull request a snapshot is of.
pub open spec fn is_target_of(target: PrTarget, snapshot: PrRecord) -> bool {
    &&& target.repository_id == snapshot.repository_id
    &&& target.owner@ == snapshot.owner@
    &&& target.repo@ == snapshot.repo@
    &&& target.number == snapshot.number
}

pub fn target_matches_snapshot(target: &PrTarget, snapshot: &PrRecord) -> (matched: bool)
    ensures
        matched == is_target_of(*target, *snapshot),
{
    target.repository_id == snapshot.repository_id && target.owner == snapshot.owner && target.repo
        == snapshot.repo && target.number == snapshot.number
}

/// What a target is refused for, given what the object knows now.
pub open spec fn refused_for(snapshot: Option<PrRecord>, target: PrTarget) -> Option<RejectReason> {
    match snapshot {
        None => Some(RejectReason::NotFound),
        Some(snapshot) => if !is_target_of(target, snapshot) {
            Some(RejectReason::NotFound)
        } else if snapshot.head_sha@ != target.expected_sha@ {
            Some(
                RejectReason::StaleSha {
                    expected: target.expected_sha,
                    actual: snapshot.head_sha,
                },
            )
        } else {
            None
        },
    }
}

/// A verdict as a result: refused with a reason, or let through.
pub open spec fn verdict(refused: Option<RejectReason>) -> Result<(), RejectReason> {
    match refused {
        Some(reason) => Err(reason),
        None => Ok(()),
    }
}

/// Checks a mutation's target against the object's snapshot before anything is sent. With no
/// snapshot of the pull request there is nothing to act on; a target whose head has moved is
/// stale, and the rejection names both heads.
pub fn guard_target(snapshot: &Option<PrRecord>, target: &PrTarget) -> (passed: Result<
    (),
    RejectReason,
>)
    ensures
        passed == verdict(refused_for(*snapshot, *target)),
{
    match snapshot {
        None => Err(RejectReason::NotFound),
        Some(snapshot) => {
            if !target_matches_snapshot(target, snapshot) {
                return Err(RejectReason::NotFound);
            }
            if snapshot.head_sha != target.expected_sha {
                return Err(
                    RejectReason::StaleSha {
                        expected: target.expected_sha.clone(),
                        actual: snapshot.head_sha.clone(),
                    },
                );
            }
            Ok(())
        },
    }
}

/// What a command is refused for: the want of a user identity outranks its target.
pub open spec fn command_refused_for(
    can_post_commands: bool,
    snapshot: Option<PrRecord>,
    target: PrTarget,
) -> Option<RejectReason> {
    if can_post_commands {
        refused_for(snapshot, target)
    } else {
        Some(RejectReason::NoUserToken)
    }
}

pub fn guard_command(
    can_post_commands: bool,
    snapshot: &Option<PrRecord>,
    target: &PrTarget,
) -> (passed: Result<(), RejectReason>)
    ensures
        passed == verdict(command_refused_for(can_post_commands, *snapshot, *target)),
{
    if !can_post_commands {
        return Err(RejectReason::NoUserToken);
    }
    guard_target(snapshot, target)
}

/// The merge method a repository's row says to use instead of the configured preference. A
/// missing row, or one without a method, says nothing.
pub fn repository_merge_method(repository: Option<RepoRecord>) -> (method: Option<MergeMethod>)
    ensures
        method == (match repository {
            Some(repository) => repository.merge_method,
            None => None,
        }),
{
    match repository {
        Some(repository) => repository.merge_method,
        None => None,
    }
}

/// How a mutation begins: refused outright, or to be sent.
#[derive(Debug, PartialEq, Eq)]
pub enum MutationStart<R> {
    /// Neither GitHub nor the store is asked, and the state is left as it is.
    Refused(ActionOutcome),
    Send(Mutation<R>),
}

/// A mutation let through its guard.
#[derive(Debug, PartialEq, Eq)]
pub struct Mutation<R> {
    pub request: R,
    pub state: PrState,
}

impl<R> Mutation<R> {
    /// Whether the object holds the pull request, so that a 404 means it is gone rather than
    /// that the call was not allowed.
    pub fn known_resource(&self) -> (known: bool)
        ensures
            known == self.state.snapshot is Some,
    {
        self.state.snapshot.is_some()
    }
}

/// A mutation is let through only where the object holds the pull request.
pub open spec fn sends_what_is_held<R>(start: MutationStart<R>) -> bool {
    start matches MutationStart::Send(mutation) ==> mutation.state.snapshot is Some
}

/// How a mutation begins, given what it is refused for.
pub open spec fn mutation_begins<R>(
    request: R,
    state: PrState,
    refused: Option<RejectReason>,
) -> MutationStart<R> {
    match refused {
        Some(reason) => MutationStart::Refused(ActionOutcome::Rejected { reason }),
        None => MutationStart::Send(Mutation { request, state }),
    }
}

/// Guards a merge's target.
pub fn begin_merge(request: MergeRequest, held: Option<PrState>) -> (start: MutationStart<
    MergeRequest,
>)
    ensures
        exists|state: PrState| #[trigger]
            begins_with(held, state) && start == mutation_begins(
                request,
                state,
                refused_for(state.snapshot, request.target),
            ),
        sends_what_is_held(start),
{
    let state = held_or_fresh(held);
    assert(begins_with(held, state));
    match guard_target(&state.snapshot, &request.target) {
        Err(reason) => MutationStart::Refused(rejected(reason)),
        Ok(()) => MutationStart::Send(Mutation { request, state }),
    }
}

/// Guards a command, for a user identity first and then for its target.
pub fn begin_command(
    request: CommandRequest,
    held: Option<PrState>,
    can_post_commands: bool,
) -> (start: MutationStart<CommandRequest>)
    ensures
        exists|state: PrState| #[trigger]
            begins_with(held, state) && start == mutation_begins(
                request,
                state,
                command_refused_for(can_post_commands, state.snapshot, request.target),
            ),
        sends_what_is_held(start),
{
    let state = held_or_fresh(held);
    assert(begins_with(held, state));
    match guard_command(can_post_commands, &state.snapshot, &request.target) {
        Err(reason) => MutationStart::Refused(rejected(reason)),
        Ok(()) => MutationStart::Send(Mutation { request, state }),
    }
}

/// Guards a branch update's target.
pub fn begin_update_branch(request: UpdateBranchRequest, held: Option<PrState>) -> (start:
    MutationStart<UpdateBranchRequest>)
    ensures
        exists|state: PrState| #[trigger]
            begins_with(held, state) && start == mutation_begins(
                request,
                state,
                refused_for(state.snapshot, request.target),
            ),
        sends_what_is_held(start),
{
    let state = held_or_fresh(held);
    assert(begins_with(held, state));
    match guard_target(&state.snapshot, &request.target) {
        Err(reason) => MutationStart::Refused(rejected(reason)),
        Ok(()) => MutationStart::Send(Mutation { request, state }),
    }
}

/// A mutation that has its outcome and is yet to be logged.
#[derive(Debug, PartialEq, Eq)]
pub struct MutationLog {
    /// The name the outcome is logged under.
    pub action: String,
    pub outcome: ActionOutcome,
    pub state: PrState,
}

/// A merge that has its outcome. One that landed drops its row before it is logged.
#[derive(Debug, PartialEq, Eq)]
pub enum MergeWrite {
    /// Drop this row, and go on from there.
    Delete(PrKey, MutationLog),
    Log(MutationLog),
}

/// Whether an action was carried out.
pub open spec fn has_succeeded(outcome: ActionOutcome) -> bool {
    outcome is Succeeded
}

impl Mutation<MergeRequest> {
    /// What is written of a merge: one that landed drops the row and forgets the snapshot,
    /// one GitHub rejected keeps both, and a fatal answer fails with the state untouched.
    pub fn merged(self, result: Settled<Merged>) -> (write: Result<MergeWrite, Fault>)
        ensures
            exists|came_to: Result<ActionOutcome, Fault>| #[trigger]
                mutation_came_to(
                    result,
                    ActionOutcome::Succeeded {
                        detail: result->Done_0.detail,
                        merge_sha: result->Done_0.sha,
                    },
                    came_to,
                ) && match came_to {
                    Err(fault) => write == Err::<MergeWrite, Fault>(fault),
                    Ok(outcome) => {
                        let key = self.request.target.spec_key();
                        if has_succeeded(outcome) {
                            &&& write matches Ok(MergeWrite::Delete(dropped, log))
                            &&& dropped == key
                            &&& log.action@ == "merge"@
                            &&& log.outcome == outcome
                            &&& log.state == (PrState { snapshot: None, ..self.state })
                        } else {
                            &&& write matches Ok(MergeWrite::Log(log))
                            &&& log.action@ == "merge"@
                            &&& log.outcome == outcome
                            &&& log.state == self.state
                        }
                    },
                },
    {
        let Mutation { request, state } = self;
        let mut state = state;
        let came_to = merge_result(result);
        assert(mutation_came_to(
            result,
            ActionOutcome::Succeeded {
                detail: result->Done_0.detail,
                merge_sha: result->Done_0.sha,
            },
            came_to,
        ));
        match came_to {
            Err(fault) => Err(fault),
            Ok(outcome) => {
                let landed = match &outcome {
                    ActionOutcome::Succeeded { .. } => true,
                    ActionOutcome::Rejected { .. } => false,
                };
                if landed {
                    state.snapshot = None;
                    Ok(
                        MergeWrite::Delete(
                            request.target.key(),
                            MutationLog { action: "merge".to_owned(), outcome, state },
                        ),
                    )
                } else {
                    Ok(MergeWrite::Log(MutationLog { action: "merge".to_owned(), outcome, state }))
                }
            },
        }
    }
}

impl Mutation<CommandRequest> {
    /// A posted command is logged under its own name.
    pub fn posted(self, result: Settled<String>) -> (log: Result<MutationLog, Fault>)
        ensures
            exists|came_to: Result<ActionOutcome, Fault>| #[trigger]
                mutation_came_to(
                    result,
                    ActionOutcome::Succeeded { detail: result->Done_0, merge_sha: None },
                    came_to,
                ) && match came_to {
                    Err(fault) => log == Err::<MutationLog, Fault>(fault),
                    Ok(outcome) => {
                        &&& log matches Ok(log)
                        &&& log.action@ == self.request.command.spec_text()
                        &&& log.outcome == outcome
                        &&& log.state == self.state
                    },
                },
    {
        let Mutation { request, state } = self;
        let came_to = action_result(result);
        assert(mutation_came_to(
            result,
            ActionOutcome::Succeeded { detail: result->Done_0, merge_sha: None },
            came_to,
        ));
        match came_to {
            Err(fault) => Err(fault),
            Ok(outcome) => Ok(MutationLog { action: request.command.text(), outcome, state }),
        }
    }
}

/// The sync an updated branch asks for. It honours the debounce, so it queues behind a
/// storm's coalescing like any event's.
pub open spec fn follow_up(target: PrTarget) -> SyncRequest {
    SyncRequest {
        repository_id: target.repository_id,
        owner: target.owner,
        repo: target.repo,
        number: target.number,
        bypass_debounce: false,
        completion_id: None,
    }
}

impl Mutation<UpdateBranchRequest> {
    /// A branch update is logged, and one that landed asks for a sync once it is.
    pub fn updated(self, result: Settled<String>) -> (log: Result<
        (MutationLog, Option<SyncRequest>),
        Fault,
    >)
        ensures
            exists|came_to: Result<ActionOutcome, Fault>| #[trigger]
                mutation_came_to(
                    result,
                    ActionOutcome::Succeeded { detail: result->Done_0, merge_sha: None },
                    came_to,
                ) && match came_to {
                    Err(fault) => log == Err::<(MutationLog, Option<SyncRequest>), Fault>(fault),
                    Ok(outcome) => {
                        &&& log matches Ok((log, sync))
                        &&& log.action@ == "update_branch"@
                        &&& log.outcome == outcome
                        &&& log.state == self.state
                        &&& sync == (if has_succeeded(outcome) {
                            Some(follow_up(self.request.target))
                        } else {
                            None
                        })
                    },
                },
    {
        let Mutation { request, state } = self;
        let came_to = action_result(result);
        assert(mutation_came_to(
            result,
            ActionOutcome::Succeeded { detail: result->Done_0, merge_sha: None },
            came_to,
        ));
        match came_to {
            Err(fault) => Err(fault),
            Ok(outcome) => {
                let landed = match &outcome {
                    ActionOutcome::Succeeded { .. } => true,
                    ActionOutcome::Rejected { .. } => false,
                };
                let sync = if landed {
                    Some(
                        SyncRequest {
                            repository_id: request.target.repository_id,
                            owner: request.target.owner,
                            repo: request.target.repo,
                            number: request.target.number,
                            bypass_debounce: false,
                            completion_id: None,
                        },
                    )
                } else {
                    None
                };
                Ok((MutationLog { action: "update_branch".to_owned(), outcome, state }, sync))
            },
        }
    }
}

impl MutationLog {
    /// What to hold, with the outcome in the history as of `at`, and the outcome itself.
    pub fn logged_at(self, at: u64) -> (done: (PrState, ActionOutcome))
        ensures
            done.0.snapshot == self.state.snapshot,
            done.0.last_synced_at == self.state.last_synced_at,
            done.0.sync_pending == self.state.sync_pending,
            done.0.completed_sync_ids == self.state.completed_sync_ids,
            logged(
                done.0.history@,
                self.state.history@,
                at,
                self.action@,
                outcome_text(self.outcome),
            ),
            done.1 == self.outcome,
    {
        let MutationLog { action, outcome, state } = self;
        let mut state = state;
        let detail = outcome_detail(&outcome);
        state.push_history(ActionLog { at, action, detail });
        assert(state.history@.drop_last() == self.state.history@);
        (state, outcome)
    }
}

/// The call to GitHub of a mutation let through, of whatever kind, is made as one about a known
/// resource.
pub proof fn law_a_mutation_is_about_a_known_resource<R>(
    start: MutationStart<R>,
    mutation: Mutation<R>,
    known: bool,
)
    requires
        sends_what_is_held(start),
        start == MutationStart::Send(mutation),
        call_ensures(Mutation::<R>::known_resource, (&mutation,), known),
    ensures
        known,
{
}

/// A sync and a sweep's fence go by one clock: what a sync has held outlives a closing that is
/// fenced no later than the instant of the sync, and no other.
pub proof fn law_a_fence_spares_only_what_was_synced_since(
    upsert: SyncUpsert,
    state: PrState,
    key: &str,
    fence: u64,
    start: Result<ClosedStart, Fault>,
)
    requires
        upsert.is_held_as(state),
        PrKey::spec_parse(key@) is Some,
        call_ensures(
            begin_closed,
            (key, Some(state), ClosedRequest { synced_before: Some(fence) }),
            start,
        ),
    ensures
        start == Ok::<ClosedStart, Fault>(
            if upsert.snapshot.synced_at >= fence {
                ClosedStart::End { held: Some(state), outcome: ClosedOutcome::Kept }
            } else {
                ClosedStart::Delete(
                    ClosedDelete { key: PrKey::spec_parse(key@)->0, held: Some(state) },
                )
            },
        ),
{
}

/// A closing without a fence spares nothing, and no fence spares what was never synced.
pub proof fn law_a_closing_spares_nothing_without_a_fence_and_a_sync(
    held: Option<PrState>,
    key: &str,
    request: ClosedRequest,
    start: Result<ClosedStart, Fault>,
)
    requires
        request.synced_before is None || last_synced(held) is None,
        PrKey::spec_parse(key@) is Some,
        call_ensures(begin_closed, (key, held, request), start),
    ensures
        start == Ok::<ClosedStart, Fault>(
            ClosedStart::Delete(ClosedDelete { key: PrKey::spec_parse(key@)->0, held }),
        ),
{
}

/// A pull request that GitHub no longer serves, or that is not Dependabot's, is forgotten once
/// its row has gone, and only then.
pub proof fn law_a_pull_request_github_does_not_serve_is_forgotten_with_its_row<E>(
    read: SyncRead,
    fetched: Settled<Option<PrRecord>>,
    write: Result<SyncWrite, Fault>,
    delete: SyncDelete,
    dropped: Result<(), E>,
    end: (Option<PrState>, Result<SyncOutcome, E>),
)
    requires
        fetched == Settled::<Option<PrRecord>>::Done(None) || (fetched matches Settled::Rejected {
            reason: RejectReason::NotFound,
            ..
        }),
        call_ensures(SyncRead::fetched, (read, fetched), write),
        delete == (SyncDelete { key: read.request.spec_key(), state: read.state }),
        call_ensures(SyncDelete::dropped::<E>, (delete, dropped), end),
    ensures
        write == Ok::<SyncWrite, Fault>(SyncWrite::Delete(delete)),
        dropped is Ok ==> end == (None::<PrState>, Ok::<SyncOutcome, E>(SyncOutcome::Deleted)),
        dropped is Err ==> end.0 == Some(read.state) && end.1 is Err,
{
}

/// A store that refuses a row's write or removal leaves the object as it was: the row and the
/// state go together or not at all.
pub proof fn law_a_refused_write_leaves_what_was_held<E>(
    upsert: SyncUpsert,
    delete: SyncDelete,
    closing: ClosedDelete,
    error: E,
    upserted: (PrState, Result<SyncOutcome, E>),
    deleted: (Option<PrState>, Result<SyncOutcome, E>),
    closed: (Option<PrState>, Result<ClosedOutcome, E>),
)
    requires
        call_ensures(SyncUpsert::projected::<E>, (upsert, Err::<(), E>(error)), upserted),
        call_ensures(SyncDelete::dropped::<E>, (delete, Err::<(), E>(error)), deleted),
        call_ensures(ClosedDelete::dropped::<E>, (closing, Err::<(), E>(error)), closed),
    ensures
        upserted.0 == upsert.state && upserted.1 is Err,
        deleted.0 == Some(delete.state) && deleted.1 is Err,
        closed.0 == closing.held && closed.1 is Err,
{
}

/// A storm of events inside the debounce window schedules one trailing sync: after the first
/// has been held, every further one coalesces.
pub proof fn law_a_storm_schedules_one_trailing_sync(
    first: SyncRequest,
    second: SyncRequest,
    held: Option<PrState>,
    state: PrState,
    now: u64,
    later: u64,
    debounce_seconds: u64,
    start: SyncStart,
)
    requires
        call_ensures(begin_sync, (first, held, now, debounce_seconds), SyncStart::Trailing {
            state,
            request: first,
            after_seconds: debounce_seconds,
        }),
        !second.bypass_debounce,
        is_debounced(false, state.last_synced_at, later, debounce_seconds),
        call_ensures(begin_sync, (second, Some(state), later, debounce_seconds), start),
    ensures
        start is Coalesced,
{
}

/// The trailing sync of a storm reads: once its delay is over, with nothing synced since, it
/// is held back no more, and the next event can schedule another.
pub proof fn law_a_trailing_sync_reads_once_its_delay_is_over(
    request: SyncRequest,
    held: Option<PrState>,
    state: PrState,
    now: u64,
    later: u64,
    debounce_seconds: u64,
    start: SyncStart,
)
    requires
        call_ensures(begin_sync, (request, held, now, debounce_seconds), SyncStart::Trailing {
            state,
            request,
            after_seconds: debounce_seconds,
        }),
        state.last_synced_at->0 <= now,
        later >= now + debounce_seconds,
        call_ensures(begin_sync, (request, Some(state), later, debounce_seconds), start),
    ensures
        start matches SyncStart::Read(read) && read.request == request && read.state
            == with_pending(state, false),
{
}

/// A pull request whose merge landed is not merged again: whatever is asked of the object
/// next is refused, until a sync finds the pull request anew.
pub proof fn law_a_merged_pull_request_is_not_merged_again(
    mutation: Mutation<MergeRequest>,
    result: Settled<Merged>,
    key: PrKey,
    log: MutationLog,
    at: u64,
    state: PrState,
    outcome: ActionOutcome,
    again: MergeRequest,
    start: MutationStart<MergeRequest>,
)
    requires
        call_ensures(
            Mutation::<MergeRequest>::merged,
            (mutation, result),
            Ok(MergeWrite::Delete(key, log)),
        ),
        call_ensures(MutationLog::logged_at, (log, at), (state, outcome)),
        call_ensures(begin_merge, (again, Some(state)), start),
    ensures
        has_succeeded(outcome),
        start == MutationStart::<MergeRequest>::Refused(
            ActionOutcome::Rejected { reason: RejectReason::NotFound },
        ),
{
}

/// What a sync has found can be acted on: a target that names the synced pull request at the
/// synced head passes the guard.
pub proof fn law_a_synced_head_can_be_acted_on(
    upsert: SyncUpsert,
    state: PrState,
    request: MergeRequest,
    start: MutationStart<MergeRequest>,
)
    requires
        upsert.is_held_as(state),
        is_target_of(request.target, upsert.snapshot),
        request.target.expected_sha@ == upsert.snapshot.head_sha@,
        call_ensures(begin_merge, (request, Some(state)), start),
    ensures
        start == MutationStart::Send(Mutation { request, state }),
{
}

/// A refresh asked for by hand is never held back.
pub proof fn law_a_manual_refresh_always_reads(
    request: SyncRequest,
    held: Option<PrState>,
    now: u64,
    debounce_seconds: u64,
    start: SyncStart,
)
    requires
        request.bypass_debounce,
        call_ensures(begin_sync, (request, held, now, debounce_seconds), start),
    ensures
        start matches SyncStart::Read(read) && !read.state.sync_pending && read.request == request,
{
}

/// Inside the debounce window no event reads GitHub. The window is all of the configured
/// seconds from the last sync on: the first event in it schedules one trailing sync, as long
/// again from now, and all others wait for that one. An event at the window's end or later, and
/// one of a pull request that was never synced, reads at once.
pub proof fn law_the_whole_window_is_debounced(
    request: SyncRequest,
    state: PrState,
    now: u64,
    debounce_seconds: u64,
    start: SyncStart,
)
    requires
        !request.bypass_debounce,
        call_ensures(begin_sync, (request, Some(state), now, debounce_seconds), start),
    ensures
        (state.last_synced_at matches Some(last) && last <= now < last + debounce_seconds) ==> if
            state.sync_pending {
            start is Coalesced
        } else {
            &&& start matches SyncStart::Trailing { state: held, request: sent, after_seconds }
            &&& sent == request
            &&& after_seconds == debounce_seconds
            &&& held.sync_pending
            &&& held.snapshot == state.snapshot
            &&& held.last_synced_at == state.last_synced_at
            &&& held.history == state.history
            &&& held.completed_sync_ids == state.completed_sync_ids
        },
        (state.last_synced_at matches Some(last) ==> last + debounce_seconds <= now) ==> {
            &&& start matches SyncStart::Read(read)
            &&& read.request == request
            &&& !read.state.sync_pending
            &&& read.state.snapshot == state.snapshot
            &&& read.state.last_synced_at == state.last_synced_at
            &&& read.state.history == state.history
            &&& read.state.completed_sync_ids == state.completed_sync_ids
        },
{
}

/// An object that holds nothing reads at once, and begins with nothing: no snapshot, no history
/// and nothing pending.
pub proof fn law_a_new_object_reads_at_once(
    request: SyncRequest,
    now: u64,
    debounce_seconds: u64,
    start: SyncStart,
)
    requires
        call_ensures(begin_sync, (request, None::<PrState>, now, debounce_seconds), start),
    ensures
        start matches SyncStart::Read(read) && read.request == request && read.state.snapshot
            is None && read.state.last_synced_at is None && !read.state.sync_pending
            && read.state.history.len() == 0 && read.state.completed_sync_ids.len() == 0,
{
}

/// Whether a sync waits: only one that does not bypass the debounce, of a pull request that was
/// synced, while fewer seconds have passed since than configured. A clock that went back counts
/// as no time passed.
pub proof fn law_what_waits_in_the_debounce(
    bypass_debounce: bool,
    last: u64,
    now: u64,
    debounce_seconds: u64,
    of_synced: bool,
    of_unsynced: bool,
)
    requires
        call_ensures(
            should_debounce_sync,
            (bypass_debounce, Some(last), now, debounce_seconds),
            of_synced,
        ),
        call_ensures(
            should_debounce_sync,
            (bypass_debounce, None::<u64>, now, debounce_seconds),
            of_unsynced,
        ),
    ensures
        bypass_debounce ==> !of_synced,
        !bypass_debounce && last <= now ==> (of_synced <==> now < last + debounce_seconds),
        !bypass_debounce && now < last ==> (of_synced <==> debounce_seconds > 0),
        !of_unsynced,
{
}

/// A sync that was held back is debounced, and one that reads has not ended.
pub proof fn law_a_sync_held_back_is_debounced(start: SyncStart, ended: Option<SyncOutcome>)
    requires
        call_ensures(SyncStart::ended, (&start,), ended),
    ensures
        start is Read ==> ended is None,
        start !is Read ==> ended == Some(SyncOutcome::Debounced),
{
}

/// A snapshot that GitHub gave goes to the row as it is; a pull request that GitHub does not
/// serve, or that is not Dependabot's, has its row dropped under its own key; and any other
/// answer fails for good, so that nothing is dropped on the strength of it.
pub proof fn law_a_sync_writes_what_github_gave(
    read: SyncRead,
    fetched: Settled<Option<PrRecord>>,
    write: Result<SyncWrite, Fault>,
)
    requires
        call_ensures(SyncRead::fetched, (read, fetched), write),
    ensures
        match fetched {
            Settled::Done(Some(snapshot)) => write matches Ok(SyncWrite::Upsert(upsert))
                && upsert.snapshot == snapshot && upsert.state == read.state
                && upsert.completion_id == read.request.completion_id,
            Settled::Done(None) => write matches Ok(SyncWrite::Delete(delete))
                && delete.key.repository_id == read.request.repository_id && delete.key.number
                == read.request.number && delete.state == read.state,
            Settled::Rejected { reason, .. } => if reason is NotFound {
                write matches Ok(SyncWrite::Delete(delete)) && delete.key.repository_id
                    == read.request.repository_id && delete.key.number == read.request.number
                    && delete.state == read.state
            } else {
                write is Err && write->Err_0 is Terminal
            },
            Settled::Fatal { .. } => write is Err && write->Err_0 is Terminal,
            Settled::StaleSha { .. } => write is Err && write->Err_0 is Terminal,
        },
{
}

/// An object that was synced holds the snapshot, and the instant it was taken at as its last
/// sync; its history has one more line, of that instant; and whoever waited for the refresh
/// finds its id among those completed. The sync says which head it found.
pub proof fn law_a_sync_holds_the_snapshot_and_logs_it<E>(
    upsert: SyncUpsert,
    end: (PrState, Result<SyncOutcome, E>),
    short: &str,
    head: &str,
)
    requires
        call_ensures(SyncUpsert::projected::<E>, (upsert, Ok::<(), E>(())), end),
        head@ == upsert.snapshot.head_sha@,
        call_ensures(short_sha, (head,), short),
    ensures
        end.0.snapshot == Some(upsert.snapshot),
        end.0.last_synced_at == Some(upsert.snapshot.synced_at),
        end.0.sync_pending == upsert.state.sync_pending,
        end.0.history.len() == upsert.state.history.len() + 1,
        forall|i: int|
            0 <= i < upsert.state.history.len() ==> #[trigger] end.0.history[i]
                == upsert.state.history[i],
        end.0.history@.last().at == upsert.snapshot.synced_at,
        end.0.history@.last().action@ == "sync"@,
        end.0.history@.last().detail@ == "canonical snapshot at "@ + short@,
        match upsert.completion_id {
            Some(id) => end.0.completed_sync_ids@ == upsert.state.completed_sync_ids@.push(id),
            None => end.0.completed_sync_ids@ == upsert.state.completed_sync_ids@,
        },
        end.1 matches Ok(SyncOutcome::Synced { head_sha }) && head_sha == upsert.snapshot.head_sha,
{
    let before = upsert.state.history@;
    let after = end.0.history@;
    assert forall|i: int| 0 <= i < before.len() implies #[trigger] after[i] == before[i] by {
        assert(after.drop_last()[i] == after[i]);
    }
}

/// What a sync and a closing say they did.
pub proof fn law_what_a_sync_and_a_closing_say(
    head_sha: String,
    head: &str,
    short: &str,
    debounced: String,
    synced: String,
    deleted: String,
    retired: String,
    kept: String,
)
    requires
        head@ == head_sha@,
        call_ensures(short_sha, (head,), short),
        call_ensures(SyncOutcome::outcome, (&SyncOutcome::Debounced,), debounced),
        call_ensures(SyncOutcome::outcome, (&SyncOutcome::Synced { head_sha },), synced),
        call_ensures(SyncOutcome::outcome, (&SyncOutcome::Deleted,), deleted),
        call_ensures(ClosedOutcome::outcome, (&ClosedOutcome::Retired,), retired),
        call_ensures(ClosedOutcome::outcome, (&ClosedOutcome::Kept,), kept),
    ensures
        debounced@ == "debounced"@,
        synced@ == "synced at "@ + short@,
        deleted@ == "deleted; no longer an open Dependabot pull request"@,
        retired@ == "retired"@,
        kept@ == "kept; synced since the sweep began"@,
{
}

/// A closing that a sweep's fence guards leaves a pull request alone that was synced at the
/// fence or later, row and state both, and retires every other; a closing without a fence
/// retires whatever there is.
pub proof fn law_a_closing_retires_what_was_not_synced_since_its_fence(
    repository_id: u64,
    number: u64,
    key: &str,
    state: PrState,
    request: ClosedRequest,
    start: Result<ClosedStart, Fault>,
    retires: bool,
)
    requires
        PrKey::spec_parse(key@) == Some(PrKey { repository_id, number }),
        call_ensures(begin_closed, (key, Some(state), request), start),
        call_ensures(closed_retires, (&Some(state), request), retires),
    ensures
        if request.synced_before is Some && state.last_synced_at is Some && state.last_synced_at->0
            >= request.synced_before->0 {
            &&& !retires
            &&& start matches Ok(ClosedStart::End { held, outcome })
            &&& held == Some(state)
            &&& outcome is Kept
        } else {
            &&& retires
            &&& start matches Ok(ClosedStart::Delete(delete))
            &&& delete.key.repository_id == repository_id
            &&& delete.key.number == number
            &&& delete.held == Some(state)
        },
{
}

/// A target passes its guard exactly where the object holds that very pull request, of the same
/// repository under the same owner and name, at the head the user saw. Where the object holds
/// none, or another, the pull request is not found; where only the head moved, the refusal
/// names the head the user saw and the one there is.
pub proof fn law_only_what_the_user_saw_is_acted_on(
    snapshot: PrRecord,
    target: PrTarget,
    of_none: Result<(), RejectReason>,
    of_some: Result<(), RejectReason>,
)
    requires
        call_ensures(guard_target, (&None::<PrRecord>, &target), of_none),
        call_ensures(guard_target, (&Some(snapshot), &target), of_some),
    ensures
        of_none == Err::<(), RejectReason>(RejectReason::NotFound),
        ({
            let same = target.repository_id == snapshot.repository_id && target.number
                == snapshot.number && target.owner@ == snapshot.owner@ && target.repo@
                == snapshot.repo@;
            &&& !same ==> of_some == Err::<(), RejectReason>(RejectReason::NotFound)
            &&& same && target.expected_sha@ == snapshot.head_sha@ ==> of_some is Ok
            &&& same && target.expected_sha@ != snapshot.head_sha@ ==> (of_some matches Err(
                RejectReason::StaleSha { expected, actual },
            ) && expected == target.expected_sha && actual == snapshot.head_sha)
        }),
{
}

/// A mutation is begun exactly where its guard passes, and is otherwise answered with what the
/// guard refused it for; a command without a user to post it is refused for that before
/// anything else. What is sent is what was asked, from what is held.
pub proof fn law_a_mutation_begins_where_its_guard_passes(
    state: PrState,
    can_post_commands: bool,
    merge: MergeRequest,
    command: CommandRequest,
    update: UpdateBranchRequest,
    merge_guard: Result<(), RejectReason>,
    command_guard: Result<(), RejectReason>,
    update_guard: Result<(), RejectReason>,
    merging: MutationStart<MergeRequest>,
    posting: MutationStart<CommandRequest>,
    updating: MutationStart<UpdateBranchRequest>,
)
    requires
        call_ensures(guard_target, (&state.snapshot, &merge.target), merge_guard),
        call_ensures(guard_target, (&state.snapshot, &command.target), command_guard),
        call_ensures(guard_target, (&state.snapshot, &update.target), update_guard),
        call_ensures(begin_merge, (merge, Some(state)), merging),
        call_ensures(begin_command, (command, Some(state), can_post_commands), posting),
        call_ensures(begin_update_branch, (update, Some(state)), updating),
    ensures
        match merge_guard {
            Ok(_) => merging == MutationStart::Send(Mutation { request: merge, state }),
            Err(reason) => merging == MutationStart::<MergeRequest>::Refused(
                ActionOutcome::Rejected { reason },
            ),
        },
        match update_guard {
            Ok(_) => updating == MutationStart::Send(Mutation { request: update, state }),
            Err(reason) => updating == MutationStart::<UpdateBranchRequest>::Refused(
                ActionOutcome::Rejected { reason },
            ),
        },
        if !can_post_commands {
            posting == MutationStart::<CommandRequest>::Refused(
                ActionOutcome::Rejected { reason: RejectReason::NoUserToken },
            )
        } else {
            match command_guard {
                Ok(_) => posting == MutationStart::Send(Mutation { request: command, state }),
                Err(reason) => posting == MutationStart::<CommandRequest>::Refused(
                    ActionOutcome::Rejected { reason },
                ),
            }
        },
{
}

/// The guard of a command asks for a user to post it first, and then for its target.
pub proof fn law_a_command_needs_a_user_first(
    snapshot: Option<PrRecord>,
    target: PrTarget,
    of_target: Result<(), RejectReason>,
    with_user: Result<(), RejectReason>,
    without_user: Result<(), RejectReason>,
)
    requires
        call_ensures(guard_target, (&snapshot, &target), of_target),
        call_ensures(guard_command, (true, &snapshot, &target), with_user),
        call_ensures(guard_command, (false, &snapshot, &target), without_user),
    ensures
        with_user == of_target,
        without_user == Err::<(), RejectReason>(RejectReason::NoUserToken),
{
}

/// An object that holds nothing acts on nothing.
pub proof fn law_an_object_that_holds_nothing_acts_on_nothing(
    merge: MergeRequest,
    update: UpdateBranchRequest,
    command: CommandRequest,
    merging: MutationStart<MergeRequest>,
    updating: MutationStart<UpdateBranchRequest>,
    posting: MutationStart<CommandRequest>,
)
    requires
        call_ensures(begin_merge, (merge, None::<PrState>), merging),
        call_ensures(begin_update_branch, (update, None::<PrState>), updating),
        call_ensures(begin_command, (command, None::<PrState>, true), posting),
    ensures
        merging == MutationStart::<MergeRequest>::Refused(
            ActionOutcome::Rejected { reason: RejectReason::NotFound },
        ),
        updating == MutationStart::<UpdateBranchRequest>::Refused(
            ActionOutcome::Rejected { reason: RejectReason::NotFound },
        ),
        posting == MutationStart::<CommandRequest>::Refused(
            ActionOutcome::Rejected { reason: RejectReason::NotFound },
        ),
{
}

/// A merge that landed has the row of its own pull request dropped and its snapshot forgotten,
/// and is answered with GitHub's words and the commit. One that GitHub rejected, or whose head
/// moved, keeps both and is answered with the reason. Either way it is logged as a merge, with
/// all else held as it was; and an answer that nothing can be made of fails for good.
pub proof fn law_what_is_written_of_a_merge(
    mutation: Mutation<MergeRequest>,
    result: Settled<Merged>,
    write: Result<MergeWrite, Fault>,
)
    requires
        call_ensures(Mutation::<MergeRequest>::merged, (mutation, result), write),
    ensures
        match result {
            Settled::Done(merged) => {
                &&& write matches Ok(MergeWrite::Delete(key, log))
                &&& key.repository_id == mutation.request.target.repository_id
                &&& key.number == mutation.request.target.number
                &&& log.action@ == "merge"@
                &&& log.outcome == (ActionOutcome::Succeeded {
                    detail: merged.detail,
                    merge_sha: merged.sha,
                })
                &&& log.state.snapshot is None
                &&& log.state.last_synced_at == mutation.state.last_synced_at
                &&& log.state.sync_pending == mutation.state.sync_pending
                &&& log.state.history == mutation.state.history
                &&& log.state.completed_sync_ids == mutation.state.completed_sync_ids
            },
            Settled::Rejected { reason, .. } => write matches Ok(MergeWrite::Log(log))
                && log.action@ == "merge"@ && log.outcome == (ActionOutcome::Rejected { reason })
                && log.state == mutation.state,
            Settled::StaleSha { expected, actual } => write matches Ok(MergeWrite::Log(log))
                && log.action@ == "merge"@ && log.outcome == (ActionOutcome::Rejected {
                reason: RejectReason::StaleSha { expected, actual },
            }) && log.state == mutation.state,
            Settled::Fatal { .. } => write is Err && write->Err_0 is Terminal,
        },
{
}

/// A command is logged under its own name and a branch update as one, each with what came of
/// it; neither touches what is held. A branch update that landed, and no other, asks for the
/// pull request to be synced, in its turn in the debounce.
pub proof fn law_what_is_written_of_a_command_and_an_update(
    posting: Mutation<CommandRequest>,
    updating: Mutation<UpdateBranchRequest>,
    result: Settled<String>,
    posted: Result<MutationLog, Fault>,
    updated: Result<(MutationLog, Option<SyncRequest>), Fault>,
)
    requires
        call_ensures(Mutation::<CommandRequest>::posted, (posting, result), posted),
        call_ensures(Mutation::<UpdateBranchRequest>::updated, (updating, result), updated),
    ensures
        posted is Ok ==> posted->Ok_0.action@ == "rebase"@ && posted->Ok_0.state == posting.state,
        updated is Ok ==> updated->Ok_0.0.action@ == "update_branch"@ && updated->Ok_0.0.state
            == updating.state,
        match result {
            Settled::Done(detail) => {
                &&& posted is Ok && posted->Ok_0.outcome == (ActionOutcome::Succeeded {
                    detail,
                    merge_sha: None,
                })
                &&& updated is Ok && updated->Ok_0.0.outcome == posted->Ok_0.outcome
                &&& updated->Ok_0.1 matches Some(sync)
                &&& sync.repository_id == updating.request.target.repository_id
                &&& sync.owner == updating.request.target.owner
                &&& sync.repo == updating.request.target.repo
                &&& sync.number == updating.request.target.number
                &&& !sync.bypass_debounce
                &&& sync.completion_id is None
            },
            Settled::Rejected { reason, .. } => posted is Ok && posted->Ok_0.outcome == (
            ActionOutcome::Rejected { reason }) && updated is Ok && updated->Ok_0.0.outcome
                == posted->Ok_0.outcome && updated->Ok_0.1 is None,
            Settled::StaleSha { expected, actual } => posted is Ok && posted->Ok_0.outcome == (
            ActionOutcome::Rejected { reason: RejectReason::StaleSha { expected, actual } })
                && updated is Ok && updated->Ok_0.0.outcome == posted->Ok_0.outcome
                && updated->Ok_0.1 is None,
            Settled::Fatal { .. } => posted is Err && posted->Err_0 is Terminal && updated is Err
                && updated->Err_0 is Terminal,
        },
{
}

/// A mutation's outcome is one more line of the history, of the instant it is logged at, under
/// the name of what was done and in the outcome's own words; all else is held as it was, and
/// the outcome is what is answered.
pub proof fn law_a_mutation_is_one_more_line_of_the_history(
    log: MutationLog,
    at: u64,
    words: String,
    done: (PrState, ActionOutcome),
)
    requires
        call_ensures(outcome_detail, (&log.outcome,), words),
        call_ensures(MutationLog::logged_at, (log, at), done),
    ensures
        done.1 == log.outcome,
        done.0.snapshot == log.state.snapshot,
        done.0.last_synced_at == log.state.last_synced_at,
        done.0.sync_pending == log.state.sync_pending,
        done.0.completed_sync_ids == log.state.completed_sync_ids,
        done.0.history.len() == log.state.history.len() + 1,
        forall|i: int|
            0 <= i < log.state.history.len() ==> #[trigger] done.0.history[i]
                == log.state.history[i],
        done.0.history@.last().at == at,
        done.0.history@.last().action@ == log.action@,
        done.0.history@.last().detail@ == words@,
{
    let before = log.state.history@;
    let after = done.0.history@;
    assert forall|i: int| 0 <= i < before.len() implies #[trigger] after[i] == before[i] by {
        assert(after.drop_last()[i] == after[i]);
    }
}

/// A repository's row says how to merge in it only where it has a method of its own.
pub proof fn law_a_repositorys_method_is_its_rows(
    repository: RepoRecord,
    of_row: Option<MergeMethod>,
    of_none: Option<MergeMethod>,
)
    requires
        call_ensures(repository_merge_method, (Some(repository),), of_row),
        call_ensures(repository_merge_method, (None::<RepoRecord>,), of_none),
    ensures
        of_row == repository.merge_method,
        of_none is None,
{
}

/// A target names the pull request of a snapshot where all four agree: the repository's id, its
/// owner and its name, and the number.
pub proof fn law_what_a_target_names(target: PrTarget, snapshot: PrRecord, matched: bool)
    requires
        call_ensures(target_matches_snapshot, (&target, &snapshot), matched),
    ensures
        matched <==> target.repository_id == snapshot.repository_id && target.number
            == snapshot.number && target.owner@ == snapshot.owner@ && target.repo@
            == snapshot.repo@,
{
}

/// An object that was never held holds nothing: no snapshot, no sync, nothing pending, no history
/// and nothing completed.
pub proof fn law_a_fresh_object_holds_nothing(state: PrState)
    requires
        call_ensures(PrState::default, (), state),
    ensures
        state.snapshot is None,
        state.last_synced_at is None,
        !state.sync_pending,
        state.history.len() == 0,
        state.completed_sync_ids.len() == 0,
{
}

} // verus!
