//! What the dashboard and its service speak of: pull requests, the requests made about
//! them, and how those requests ended.

use vstd::prelude::*;

use crate::text::{
    chars_of, decimal, decimal_text, find_char, first_index, is_digit, law_decimal_reads_back,
    lemma_decimal, lemma_first_index_unique, parse_chars, spec_parse_u64,
};

verus! {

/// A pull request: the repository it is in and its number there.
#[derive(Clone, Copy, Debug, PartialEq, Eq, Structural)]
pub struct PrKey {
    pub repository_id: u64,
    pub number: u64,
}

impl PrKey {
    pub fn new(repository_id: u64, number: u64) -> (key: PrKey)
        ensures
            key.repository_id == repository_id,
            key.number == number,
    {
        PrKey { repository_id, number }
    }

    /// The object key: `{repository_id}#{number}`.
    pub open spec fn spec_text(self) -> Seq<char> {
        decimal(self.repository_id as nat) + "#"@ + decimal(self.number as nat)
    }

    pub fn text(&self) -> (text: String)
        ensures
            text@ == self.spec_text(),
    {
        let mut text = decimal_text(self.repository_id);
        text.append("#");
        text.append(decimal_text(self.number).as_str());
        text
    }

    /// The pull request an object key names, if it names one.
    pub open spec fn spec_parse(text: Seq<char>) -> Option<PrKey> {
        let at = first_index(text, '#');
        if at < text.len() {
            match (spec_parse_u64(text.take(at)), spec_parse_u64(text.skip(at + 1))) {
                (Some(repository_id), Some(number)) => Some(PrKey { repository_id, number }),
                _ => None,
            }
        } else {
            None
        }
    }

    pub fn parse(text: &str) -> (key: Option<PrKey>)
        ensures
            key == PrKey::spec_parse(text@),
    {
        let chars = chars_of(text);
        let at: usize = find_char(&chars, '#');
        if at == chars.len() {
            return None;
        }
        proof {
            crate::text::lemma_first_index(text@, '#');
            assert(chars@.subrange(0, at as int) == text@.take(at as int));
            assert(chars@.subrange(at + 1, chars.len() as int) == text@.skip(at + 1));
        }
        match (parse_chars(&chars, 0, at), parse_chars(&chars, at + 1, chars.len())) {
            (Some(repository_id), Some(number)) => Some(PrKey { repository_id, number }),
            _ => None,
        }
    }
}

/// A key read back from its text is the key.
pub proof fn law_a_key_reads_back(key: PrKey)
    ensures
        PrKey::spec_parse(key.spec_text()) == Some(key),
{
    let repository = decimal(key.repository_id as nat);
    let number = decimal(key.number as nat);
    let text = key.spec_text();
    reveal_strlit("#");
    lemma_decimal(key.repository_id as nat);
    law_decimal_reads_back(key.repository_id);
    law_decimal_reads_back(key.number);
    assert forall|i: int| 0 <= i < repository.len() implies #[trigger] text[i] != '#' by {
        assert(is_digit(repository[i]));
    }
    assert(text[repository.len() as int] == '#');
    lemma_first_index_unique(text, '#', repository.len() as int);
    assert(text.take(repository.len() as int) == repository);
    assert(text.skip(repository.len() as int + 1) == number);
}

/// Who asked for an action.
#[derive(Debug, PartialEq, Eq)]
pub struct UserId {
    pub login: String,
}

impl UserId {
    pub fn new(login: &str) -> (user: UserId)
        ensures
            user.login@ == login@,
    {
        UserId { login: login.to_owned() }
    }
}

impl Clone for UserId {
    fn clone(&self) -> (copy: Self)
        ensures
            copy == *self,
    {
        UserId { login: self.login.clone() }
    }
}

/// What a batch does to each of its pull requests.
#[derive(Clone, Copy, Debug, PartialEq, Eq, Structural)]
pub enum BulkActionKind {
    Merge,
    Rebase,
    UpdateBranch,
}

/// How a pull request is merged.
#[derive(Clone, Copy, Debug, PartialEq, Eq, Structural)]
pub enum MergeMethod {
    Merge,
    Squash,
    Rebase,
}

/// A command Dependabot takes by comment.
#[derive(Clone, Copy, Debug, PartialEq, Eq, Structural)]
pub enum DependabotCommand {
    Rebase,
}

impl DependabotCommand {
    pub open spec fn spec_text(self) -> Seq<char> {
        match self {
            DependabotCommand::Rebase => "rebase"@,
        }
    }

    pub fn text(&self) -> (text: String)
        ensures
            text@ == self.spec_text(),
    {
        match self {
            DependabotCommand::Rebase => "rebase".to_owned(),
        }
    }
}

/// What GitHub is asked to do, as far as its answers are judged by it.
#[derive(Clone, Copy, Debug, PartialEq, Eq, Structural)]
pub enum Operation {
    Read,
    Merge,
    Comment,
    UpdateBranch,
}

/// A pull request as a batch names it: where it is, and the head the user saw.
#[derive(Debug, PartialEq, Eq)]
pub struct PrTarget {
    pub repository_id: u64,
    pub owner: String,
    pub repo: String,
    pub number: u64,
    pub expected_sha: String,
    pub title: String,
    pub html_url: String,
}

impl PrTarget {
    pub open spec fn spec_key(self) -> PrKey {
        PrKey { repository_id: self.repository_id, number: self.number }
    }

    pub fn key(&self) -> (key: PrKey)
        ensures
            key == self.spec_key(),
    {
        PrKey { repository_id: self.repository_id, number: self.number }
    }
}

impl Clone for PrTarget {
    fn clone(&self) -> (copy: Self)
        ensures
            copy == *self,
    {
        PrTarget {
            repository_id: self.repository_id,
            owner: self.owner.clone(),
            repo: self.repo.clone(),
            number: self.number,
            expected_sha: self.expected_sha.clone(),
            title: self.title.clone(),
            html_url: self.html_url.clone(),
        }
    }
}

/// A pull request's canonical snapshot, which is also its row in the projection.
///
/// `payload` is the rest of the row, carried through unread.
#[derive(Debug, PartialEq, Eq)]
pub struct PrRecord {
    pub repository_id: u64,
    pub installation_id: u64,
    pub owner: String,
    pub repo: String,
    pub number: u64,
    pub title: String,
    pub html_url: String,
    pub head_sha: String,
    pub synced_at: u64,
    pub payload: String,
}

impl PrRecord {
    pub open spec fn spec_key(self) -> PrKey {
        PrKey { repository_id: self.repository_id, number: self.number }
    }

    pub fn key(&self) -> (key: PrKey)
        ensures
            key == self.spec_key(),
    {
        PrKey { repository_id: self.repository_id, number: self.number }
    }
}

impl Clone for PrRecord {
    fn clone(&self) -> (copy: Self)
        ensures
            copy == *self,
    {
        PrRecord {
            repository_id: self.repository_id,
            installation_id: self.installation_id,
            owner: self.owner.clone(),
            repo: self.repo.clone(),
            number: self.number,
            title: self.title.clone(),
            html_url: self.html_url.clone(),
            head_sha: self.head_sha.clone(),
            synced_at: self.synced_at,
            payload: self.payload.clone(),
        }
    }
}

/// A repository's row in the projection.
///
/// `merge_method` is the method its last sync resolved where the repository disallows the
/// configured preference.
#[derive(Debug, PartialEq, Eq)]
pub struct RepoRecord {
    pub repository_id: u64,
    pub installation_id: u64,
    pub owner: String,
    pub repo: String,
    pub merge_method: Option<MergeMethod>,
    pub synced_at: u64,
}

impl Clone for RepoRecord {
    fn clone(&self) -> (copy: Self)
        ensures
            copy == *self,
    {
        RepoRecord {
            repository_id: self.repository_id,
            installation_id: self.installation_id,
            owner: self.owner.clone(),
            repo: self.repo.clone(),
            merge_method: self.merge_method,
            synced_at: self.synced_at,
        }
    }
}

/// A pull request whose row a prune removed, waiting for its object to be told. The fence
/// is the instant the prune's listing started; a purge has none.
#[derive(Clone, Copy, Debug, PartialEq, Eq, Structural)]
pub struct Retirement {
    pub id: u64,
    pub key: PrKey,
    pub synced_before: Option<u64>,
}

/// Asks for a pull request to be read from GitHub again.
#[derive(Debug, PartialEq, Eq)]
pub struct SyncRequest {
    pub repository_id: u64,
    pub owner: String,
    pub repo: String,
    pub number: u64,
    pub bypass_debounce: bool,
    /// The id the refresh is recorded under, when somebody waits for it.
    pub completion_id: Option<String>,
}

impl SyncRequest {
    pub open spec fn spec_key(self) -> PrKey {
        PrKey { repository_id: self.repository_id, number: self.number }
    }
}

/// The key of the pull request that a sync request addresses.
pub fn request_key(request: &SyncRequest) -> (key: PrKey)
    ensures
        key == request.spec_key(),
{
    PrKey::new(request.repository_id, request.number)
}

/// A copy of an optional text.
pub fn clone_text(text: &Option<String>) -> (copy: Option<String>)
    ensures
        copy == *text,
{
    match text {
        Some(text) => Some(text.clone()),
        None => None,
    }
}

impl Clone for SyncRequest {
    fn clone(&self) -> (copy: Self)
        ensures
            copy == *self,
    {
        SyncRequest {
            repository_id: self.repository_id,
            owner: self.owner.clone(),
            repo: self.repo.clone(),
            number: self.number,
            bypass_debounce: self.bypass_debounce,
            completion_id: clone_text(&self.completion_id),
        }
    }
}

/// A refresh asked for from the dashboard.
#[derive(Clone, Debug, PartialEq, Eq)]
pub struct ManualSyncRequest {
    pub repository_id: u64,
    pub owner: String,
    pub repo: String,
    pub number: u64,
    pub completion_id: String,
}

/// The sync a dashboard refresh turns into: it skips the event debounce and is recorded
/// under its completion id.
pub fn manual_sync(request: ManualSyncRequest) -> (sync: SyncRequest)
    ensures
        sync.repository_id == request.repository_id,
        sync.owner == request.owner,
        sync.repo == request.repo,
        sync.number == request.number,
        sync.bypass_debounce,
        sync.completion_id == Some(request.completion_id),
{
    SyncRequest {
        repository_id: request.repository_id,
        owner: request.owner,
        repo: request.repo,
        number: request.number,
        bypass_debounce: true,
        completion_id: Some(request.completion_id),
    }
}

/// Asks for every pull request at a commit to be synced. `pull_requests` are the ones the
/// delivery named.
#[derive(Clone, Debug, PartialEq, Eq)]
pub struct SyncShaRequest {
    pub repository_id: u64,
    pub owner: String,
    pub repo: String,
    pub sha: String,
    pub pull_requests: Vec<u64>,
}

#[derive(Clone, Debug, PartialEq, Eq)]
pub struct MergeRequest {
    pub batch_id: String,
    pub target: PrTarget,
}

#[derive(Clone, Debug, PartialEq, Eq)]
pub struct CommandRequest {
    pub batch_id: String,
    pub target: PrTarget,
    pub user_id: UserId,
    pub command: DependabotCommand,
}

#[derive(Clone, Debug, PartialEq, Eq)]
pub struct UpdateBranchRequest {
    pub batch_id: String,
    pub target: PrTarget,
}

/// A batch as it is submitted to the workflow.
#[derive(Clone, Debug, PartialEq, Eq)]
pub struct BulkRequest {
    pub action: BulkActionKind,
    pub targets: Vec<PrTarget>,
    pub user_id: UserId,
    /// The batch this one retries.
    pub retried_from: Option<String>,
}

/// Why an action was not carried out.
#[derive(Debug, PartialEq, Eq)]
pub enum RejectReason {
    /// There is no such open Dependabot pull request.
    NotFound,
    /// The head moved since the user saw it.
    StaleSha { expected: String, actual: String },
    NotMergeable,
    Forbidden,
    /// The deployment has no user identity to post commands under.
    NoUserToken,
}

impl RejectReason {
    pub open spec fn spec_text(self) -> Seq<char> {
        match self {
            RejectReason::NotFound => "the pull request is no longer open"@,
            RejectReason::StaleSha { expected, actual } => "head moved from "@ + expected@ + " to "@
                + actual@,
            RejectReason::NotMergeable => "GitHub reports this pull request is not mergeable"@,
            RejectReason::Forbidden => "the configured identity is not allowed to perform this action"@,
            RejectReason::NoUserToken => "no GitHub user token is configured for @dependabot commands"@,
        }
    }

    /// The reason as a person reads it.
    pub fn text(&self) -> (text: String)
        ensures
            text@ == self.spec_text(),
    {
        match self {
            RejectReason::NotFound => "the pull request is no longer open".to_owned(),
            RejectReason::StaleSha { expected, actual } => {
                let mut text = "head moved from ".to_owned();
                text.append(expected.as_str());
                text.append(" to ");
                text.append(actual.as_str());
                text
            },
            RejectReason::NotMergeable => "GitHub reports this pull request is not mergeable".to_owned(),
            RejectReason::Forbidden =>
                "the configured identity is not allowed to perform this action".to_owned(),
            RejectReason::NoUserToken =>
                "no GitHub user token is configured for @dependabot commands".to_owned(),
        }
    }
}

impl Clone for RejectReason {
    fn clone(&self) -> (copy: Self)
        ensures
            copy == *self,
    {
        match self {
            RejectReason::NotFound => RejectReason::NotFound,
            RejectReason::StaleSha { expected, actual } => RejectReason::StaleSha {
                expected: expected.clone(),
                actual: actual.clone(),
            },
            RejectReason::NotMergeable => RejectReason::NotMergeable,
            RejectReason::Forbidden => RejectReason::Forbidden,
            RejectReason::NoUserToken => RejectReason::NoUserToken,
        }
    }
}

/// How an action on one pull request ended.
#[derive(Debug, PartialEq, Eq)]
pub enum ActionOutcome {
    Succeeded {
        detail: String,
        /// The commit a merge made.
        merge_sha: Option<String>,
    },
    Rejected { reason: RejectReason },
}

impl Clone for ActionOutcome {
    fn clone(&self) -> (copy: Self)
        ensures
            copy == *self,
    {
        match self {
            ActionOutcome::Succeeded { detail, merge_sha } => ActionOutcome::Succeeded {
                detail: detail.clone(),
                merge_sha: clone_text(merge_sha),
            },
            ActionOutcome::Rejected { reason } => ActionOutcome::Rejected { reason: reason.clone() },
        }
    }
}

pub fn rejected(reason: RejectReason) -> (outcome: ActionOutcome)
    ensures
        outcome == (ActionOutcome::Rejected { reason }),
{
    ActionOutcome::Rejected { reason }
}

/// What an outcome says for itself: GitHub's message, or the reason it was rejected.
pub open spec fn outcome_text(outcome: ActionOutcome) -> Seq<char> {
    match outcome {
        ActionOutcome::Succeeded { detail, .. } => detail@,
        ActionOutcome::Rejected { reason } => reason.spec_text(),
    }
}

pub fn outcome_detail(outcome: &ActionOutcome) -> (detail: String)
    ensures
        detail@ == outcome_text(*outcome),
{
    match outcome {
        ActionOutcome::Succeeded { detail, .. } => detail.clone(),
        ActionOutcome::Rejected { reason } => reason.text(),
    }
}

/// A pull request is named by the repository it is in and its number there, whichever value
/// names it.
pub proof fn law_everything_is_keyed_by_its_repository_and_number(
    target: PrTarget,
    row: PrRecord,
    request: SyncRequest,
    of_target: PrKey,
    of_row: PrKey,
    of_request: PrKey,
)
    requires
        call_ensures(PrTarget::key, (&target,), of_target),
        call_ensures(PrRecord::key, (&row,), of_row),
        call_ensures(request_key, (&request,), of_request),
    ensures
        of_target.repository_id == target.repository_id && of_target.number == target.number,
        of_row.repository_id == row.repository_id && of_row.number == row.number,
        of_request.repository_id == request.repository_id && of_request.number == request.number,
{
}

/// An object key is the repository's id, a `#` and the number, and reads back as the pull
/// request it was made of.
pub proof fn law_an_object_key_is_the_repository_and_the_number(
    key: PrKey,
    text: String,
    read: Option<PrKey>,
    borrowed: &str,
)
    requires
        call_ensures(PrKey::text, (&key,), text),
        borrowed@ == text@,
        call_ensures(PrKey::parse, (borrowed,), read),
    ensures
        text@ == decimal(key.repository_id as nat) + seq!['#'] + decimal(key.number as nat),
        read == Some(key),
{
    reveal_strlit("#");
    assert("#"@ =~= seq!['#']);
    law_a_key_reads_back(key);
}

/// What a rejection reads as. A moved head names the head the user saw, and then the one there
/// is.
pub proof fn law_what_a_rejection_says(reason: RejectReason, text: String)
    requires
        call_ensures(RejectReason::text, (&reason,), text),
    ensures
        match reason {
            RejectReason::NotFound => text@ == "the pull request is no longer open"@,
            RejectReason::StaleSha { expected, actual } => text@ == "head moved from "@ + expected@
                + " to "@ + actual@,
            RejectReason::NotMergeable => text@
                == "GitHub reports this pull request is not mergeable"@,
            RejectReason::Forbidden => text@
                == "the configured identity is not allowed to perform this action"@,
            RejectReason::NoUserToken => text@
                == "no GitHub user token is configured for @dependabot commands"@,
        },
{
}

/// What an outcome says for itself: GitHub's own words where the action was carried out, the
/// reason where it was not.
pub proof fn law_what_an_outcome_says(
    words: String,
    merge_sha: Option<String>,
    reason: RejectReason,
    why: String,
    of_success: String,
    of_rejection: String,
)
    requires
        call_ensures(
            outcome_detail,
            (&ActionOutcome::Succeeded { detail: words, merge_sha },),
            of_success,
        ),
        call_ensures(RejectReason::text, (&reason,), why),
        call_ensures(outcome_detail, (&ActionOutcome::Rejected { reason },), of_rejection),
    ensures
        of_success@ == words@,
        of_rejection@ == why@,
{
}

/// The one command there is is posted and logged as `rebase`.
pub proof fn law_a_rebase_is_called_rebase(command: DependabotCommand, text: String)
    requires
        call_ensures(DependabotCommand::text, (&command,), text),
    ensures
        text@ == "rebase"@,
{
}

/// A key is read of two numbers around the first `#`, and of nothing else: a text without a `#`,
/// or with no number on either side of the first, is no key.
pub proof fn law_a_key_is_two_numbers_around_a_hash(
    left: &str,
    right: &str,
    text: &str,
    plain: &str,
    repository_id: Option<u64>,
    number: Option<u64>,
    key: Option<PrKey>,
    of_plain: Option<PrKey>,
)
    requires
        forall|i: int| 0 <= i < left@.len() ==> #[trigger] left@[i] != '#',
        text@ == left@ + seq!['#'] + right@,
        forall|i: int| 0 <= i < plain@.len() ==> #[trigger] plain@[i] != '#',
        call_ensures(crate::text::parse_u64, (left,), repository_id),
        call_ensures(crate::text::parse_u64, (right,), number),
        call_ensures(PrKey::parse, (text,), key),
        call_ensures(PrKey::parse, (plain,), of_plain),
    ensures
        key is Some <==> repository_id is Some && number is Some,
        key matches Some(key) ==> repository_id == Some(key.repository_id) && number == Some(
            key.number,
        ),
        of_plain is None,
{
    assert forall|i: int| 0 <= i < left@.len() implies #[trigger] text@[i] != '#' by {
        assert(text@[i] == left@[i]);
    }
    lemma_first_index_unique(text@, '#', left@.len() as int);
    assert(text@.take(left@.len() as int) =~= left@);
    assert(text@.skip(left@.len() as int + 1) =~= right@);
    lemma_first_index_unique(plain@, '#', plain@.len() as int);
}

/// A refresh that the dashboard asked for syncs that very pull request, past the debounce and
/// under the id it is waited for by.
pub proof fn law_a_refresh_syncs_what_was_asked_for(
    request: ManualSyncRequest,
    sync: SyncRequest,
    key: PrKey,
)
    requires
        call_ensures(manual_sync, (request,), sync),
        call_ensures(request_key, (&sync,), key),
    ensures
        sync.owner == request.owner,
        sync.repo == request.repo,
        sync.bypass_debounce,
        sync.completion_id == Some(request.completion_id),
        key.repository_id == request.repository_id,
        key.number == request.number,
{
}

} // verus!
