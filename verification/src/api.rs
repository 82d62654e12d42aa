//! What the dashboard may ask of the server, and what it is answered: the batch rules, the
//! resolution of the keys a browser names against the projection, and the messages that reach
//! the browser.

use vstd::prelude::*;

use crate::batch::distinct_keys;
use crate::fault::{terminal, Fault};
use crate::model::{
    BulkActionKind, BulkRequest, ManualSyncRequest, PrKey, PrRecord, PrTarget, UserId,
};
use crate::restate::{pull_request_status, status_path, Delivery, Invocation, RestateIngressError};
use crate::text::{
    borrow_text, chars_of, decimal, decimal_text, hex, hex_char, hex_text, is_hex, lemma_hex,
    owned_said, said,
};

verus! {

/// The most pull requests one batch may name.
pub const MAX_BATCH_TARGETS: usize = 100;

/// The most finished batches one read lists.
pub const MAX_RECENT_BATCHES: u32 = 100;

/// The places of the hyphens in a UUID.
pub open spec fn is_hyphen_place(i: int) -> bool {
    i == 8 || i == 13 || i == 18 || i == 23
}

/// A UUID in its hyphenated form, of version 7 and the variant that has versions.
pub open spec fn is_batch_id(text: Seq<char>) -> bool {
    &&& text.len() == 36
    &&& forall|i: int|
        0 <= i < 36 ==> if is_hyphen_place(i) {
            #[trigger] text[i] == '-'
        } else {
            is_hex(text[i])
        }
    &&& text[14] == '7'
    &&& (text[19] == '8' || text[19] == '9' || text[19] == 'a' || text[19] == 'b' || text[19] == 'A'
        || text[19] == 'B')
}

/// Whether a text is an id that a batch can have.
pub fn valid_batch_id(text: &str) -> (valid: bool)
    ensures
        valid == is_batch_id(text@),
{
    let chars = chars_of(text);
    if chars.len() != 36 {
        return false;
    }
    let mut i: usize = 0;
    while i < 36
        invariant
            i <= 36,
            chars@.len() == 36,
            chars@ == text@,
            forall|k: int|
                0 <= k < i ==> if is_hyphen_place(k) {
                    #[trigger] text@[k] == '-'
                } else {
                    is_hex(text@[k])
                },
        decreases 36 - i,
    {
        let c: char = chars[i];
        let fits = if i == 8 || i == 13 || i == 18 || i == 23 {
            c == '-'
        } else {
            ('0' <= c && c <= '9') || ('a' <= c && c <= 'f') || ('A' <= c && c <= 'F')
        };
        if !fits {
            assert(text@[i as int] == c);
            return false;
        }
        i += 1;
    }
    let variant: char = chars[19];
    chars[14] == '7' && (variant == '8' || variant == '9' || variant == 'a' || variant == 'b'
        || variant == 'A' || variant == 'B')
}

/// An id for a batch or a refresh: a UUID of version 7, of the moment it is minted at, in
/// milliseconds, and of random bits.
pub open spec fn minted_id(unix_millis: u64, random: (u64, u64)) -> Seq<char> {
    hex(unix_millis as nat / 0x1_0000, 8) + "-"@ + hex(unix_millis as nat, 4) + "-7"@ + hex(
        random.0 as nat,
        3,
    ) + "-"@ + hex(0x8000 + random.0 as nat / 0x1000 % 0x4000, 4) + "-"@ + hex(random.1 as nat, 12)
}

/// Mints an id at a moment, from random bits.
pub fn new_batch_id(unix_millis: u64, random: (u64, u64)) -> (id: String)
    ensures
        id@ == minted_id(unix_millis, random),
        is_batch_id(id@),
{
    let mut id = hex_text(unix_millis / 0x1_0000, 8);
    id.append("-");
    id.append(hex_text(unix_millis, 4).as_str());
    id.append("-7");
    id.append(hex_text(random.0, 3).as_str());
    id.append("-");
    id.append(hex_text(0x8000 + random.0 / 0x1000 % 0x4000, 4).as_str());
    id.append("-");
    id.append(hex_text(random.1, 12).as_str());
    proof {
        lemma_minted_id(unix_millis, random);
    }
    id
}

proof fn lemma_minted_id(unix_millis: u64, random: (u64, u64))
    ensures
        is_batch_id(minted_id(unix_millis, random)),
{
    reveal_strlit("-");
    reveal_strlit("-7");
    let text = minted_id(unix_millis, random);
    let variant = 0x8000 + random.0 as nat / 0x1000 % 0x4000;
    lemma_hex(unix_millis as nat / 0x1_0000, 8);
    lemma_hex(unix_millis as nat, 4);
    lemma_hex(random.0 as nat, 3);
    lemma_hex(variant, 4);
    lemma_hex(random.1 as nat, 12);
    reveal_with_fuel(hex, 5);
    assert(8 <= variant / 16 / 16 / 16 % 16 <= 11);
    assert(text[19] == hex(variant, 4)[0]);
    assert(hex(variant, 4)[0] == hex_char(variant / 16 / 16 / 16 % 16));
}

/// Why a submission could not run as a batch.
#[derive(Clone, Copy, Debug, PartialEq, Eq, Structural)]
pub enum InvalidBatch {
    BatchId,
    RetriedFrom,
    TargetCount,
    DuplicateTargets,
}

pub open spec fn count_rule() -> Seq<char> {
    "batch must contain between 1 and "@ + decimal(MAX_BATCH_TARGETS as nat) + " targets"@
}

fn count_rule_text() -> (text: String)
    ensures
        text@ == count_rule(),
{
    let mut text = "batch must contain between 1 and ".to_owned();
    text.append(decimal_text(MAX_BATCH_TARGETS as u64).as_str());
    text.append(" targets");
    text
}

impl InvalidBatch {
    pub open spec fn spec_text(self) -> Seq<char> {
        match self {
            InvalidBatch::BatchId => "batch id must be a UUIDv7"@,
            InvalidBatch::RetriedFrom => "the batch retried must be named by a UUIDv7"@,
            InvalidBatch::TargetCount => count_rule(),
            InvalidBatch::DuplicateTargets => "batch contains duplicate pull requests"@,
        }
    }

    pub fn text(&self) -> (text: String)
        ensures
            text@ == self.spec_text(),
    {
        match self {
            InvalidBatch::BatchId => "batch id must be a UUIDv7".to_owned(),
            InvalidBatch::RetriedFrom => "the batch retried must be named by a UUIDv7".to_owned(),
            InvalidBatch::TargetCount => count_rule_text(),
            InvalidBatch::DuplicateTargets => "batch contains duplicate pull requests".to_owned(),
        }
    }
}

pub open spec fn all_distinct(keys: Seq<PrKey>) -> bool {
    forall|i: int, j: int| 0 <= i < j < keys.len() ==> #[trigger] keys[i] != #[trigger] keys[j]
}

/// What keeps a submission from running as a batch, if anything does.
pub open spec fn batch_fault(
    batch_id: Seq<char>,
    retried_from: Option<Seq<char>>,
    keys: Seq<PrKey>,
) -> Option<InvalidBatch> {
    if !is_batch_id(batch_id) {
        Some(InvalidBatch::BatchId)
    } else if retried_from is Some && !is_batch_id(retried_from->0) {
        Some(InvalidBatch::RetriedFrom)
    } else if keys.len() == 0 || keys.len() > MAX_BATCH_TARGETS {
        Some(InvalidBatch::TargetCount)
    } else if !all_distinct(keys) {
        Some(InvalidBatch::DuplicateTargets)
    } else {
        None
    }
}

fn distinct(keys: &Vec<PrKey>) -> (distinct: bool)
    ensures
        distinct == all_distinct(keys@),
{
    let mut i: usize = 0;
    while i < keys.len()
        invariant
            i <= keys.len(),
            forall|a: int, b: int|
                0 <= a < b < i ==> #[trigger] keys@[a] != #[trigger] keys@[b],
        decreases keys.len() - i,
    {
        let mut j: usize = 0;
        while j < i
            invariant
                j <= i,
                i < keys.len(),
                forall|a: int| 0 <= a < j ==> #[trigger] keys@[a] != keys@[i as int],
            decreases i - j,
        {
            if keys[j] == keys[i] {
                assert(keys@[j as int] == keys@[i as int]);
                return false;
            }
            j += 1;
        }
        i += 1;
    }
    true
}

/// Holds a submission to the batch rules.
pub fn validate_batch(batch_id: &str, retried_from: Option<&str>, keys: &Vec<PrKey>) -> (valid:
    Result<(), InvalidBatch>)
    ensures
        match batch_fault(batch_id@, said(retried_from), keys@) {
            Some(fault) => valid == Err::<(), InvalidBatch>(fault),
            None => valid is Ok,
        },
{
    if !valid_batch_id(batch_id) {
        return Err(InvalidBatch::BatchId);
    }
    if let Some(retried) = retried_from {
        if !valid_batch_id(retried) {
            return Err(InvalidBatch::RetriedFrom);
        }
    }
    if keys.len() == 0 || keys.len() > MAX_BATCH_TARGETS {
        return Err(InvalidBatch::TargetCount);
    }
    if !distinct(keys) {
        return Err(InvalidBatch::DuplicateTargets);
    }
    Ok(())
}

pub open spec fn target_keys(targets: Seq<PrTarget>) -> Seq<PrKey> {
    targets.map_values(|target: PrTarget| target.spec_key())
}

/// What the workflow itself makes of a batch request before it runs any of it.
pub fn validate_batch_request(batch_id: &str, request: &BulkRequest) -> (valid: Result<(), Fault>)
    ensures
        if !is_batch_id(batch_id@) {
            terminal(valid, "batch key must be a UUIDv7"@)
        } else if request.targets.len() == 0 || request.targets.len() > MAX_BATCH_TARGETS {
            terminal(valid, count_rule())
        } else if !all_distinct(target_keys(request.targets@)) {
            terminal(valid, "batch contains duplicate pull requests"@)
        } else {
            valid is Ok
        },
{
    if !valid_batch_id(batch_id) {
        return Err(Fault::Terminal("batch key must be a UUIDv7".to_owned()));
    }
    if request.targets.len() == 0 || request.targets.len() > MAX_BATCH_TARGETS {
        return Err(Fault::Terminal(count_rule_text()));
    }
    let mut keys: Vec<PrKey> = Vec::new();
    let mut i: usize = 0;
    while i < request.targets.len()
        invariant
            i <= request.targets.len(),
            keys@ == target_keys(request.targets@.take(i as int)),
        decreases request.targets.len() - i,
    {
        keys.push(request.targets[i].key());
        assert(target_keys(request.targets@.take(i + 1)) =~= target_keys(
            request.targets@.take(i as int),
        ).push(request.targets@[i as int].spec_key()));
        i += 1;
    }
    assert(request.targets@.take(i as int) == request.targets@);
    if !distinct(&keys) {
        return Err(Fault::Terminal("batch contains duplicate pull requests".to_owned()));
    }
    Ok(())
}

pub open spec fn foreign(number: u64) -> Seq<char> {
    "pull request #"@ + decimal(number as nat)
        + " does not belong to the configured installation"@
}

/// The row a browser named by its key, as the projection has it. The projection never showed a
/// row of another installation, so a request for one is refused outright rather than answered
/// with nothing.
pub fn projected_pr(installation_id: u64, key: PrKey, row: Option<PrRecord>) -> (projected: Result<
    Option<PrRecord>,
    String,
>)
    ensures
        if row matches Some(row) && row.installation_id != installation_id {
            projected matches Err(message) && message@ == foreign(key.number)
        } else {
            projected == Ok::<Option<PrRecord>, String>(row)
        },
{
    match row {
        None => Ok(None),
        Some(row) => {
            if row.installation_id != installation_id {
                let mut message = "pull request #".to_owned();
                message.append(decimal_text(key.number).as_str());
                message.append(" does not belong to the configured installation");
                Err(message)
            } else {
                Ok(Some(row))
            }
        },
    }
}

/// A batch target as the browser submits it: a key, and the head the user saw.
#[derive(Debug, PartialEq, Eq)]
pub struct SubmittedTarget {
    pub repository_id: u64,
    pub number: u64,
    pub expected_sha: String,
}

impl SubmittedTarget {
    pub open spec fn spec_key(self) -> PrKey {
        PrKey { repository_id: self.repository_id, number: self.number }
    }

    pub fn key(&self) -> (key: PrKey)
        ensures
            key == self.spec_key(),
    {
        PrKey { repository_id: self.repository_id, number: self.number }
    }
}

pub open spec fn submitted_keys(targets: Seq<SubmittedTarget>) -> Seq<PrKey> {
    targets.map_values(|target: SubmittedTarget| target.spec_key())
}

/// A target, with the projection's word on it and the browser's on the head.
pub open spec fn resolved_target(target: SubmittedTarget, row: PrRecord) -> PrTarget {
    PrTarget {
        repository_id: row.repository_id,
        owner: row.owner,
        repo: row.repo,
        number: row.number,
        expected_sha: target.expected_sha,
        title: row.title,
        html_url: row.html_url,
    }
}

/// The targets the projection has rows for, in the order they were submitted.
pub open spec fn resolved(targets: Seq<SubmittedTarget>, rows: Seq<Option<PrRecord>>) -> Seq<
    PrTarget,
>
    decreases rows.len(),
{
    if rows.len() == 0 {
        Seq::empty()
    } else {
        let before = resolved(targets, rows.drop_last());
        match rows.last() {
            Some(row) => before.push(resolved_target(targets[rows.len() - 1], row)),
            None => before,
        }
    }
}

/// The keys of the targets the projection has no rows for, in the order they were submitted.
pub open spec fn left_out(targets: Seq<SubmittedTarget>, rows: Seq<Option<PrRecord>>) -> Seq<PrKey>
    decreases rows.len(),
{
    if rows.len() == 0 {
        Seq::empty()
    } else {
        let before = left_out(targets, rows.drop_last());
        match rows.last() {
            Some(_) => before,
            None => before.push(targets[rows.len() - 1].spec_key()),
        }
    }
}

/// What a submission is answered: the targets that are left out of the batch.
#[derive(Debug, PartialEq, Eq)]
pub struct BatchReceipt {
    pub left_out: Vec<PrKey>,
}

/// A submission that meets the batch rules, while its targets are looked up one by one.
#[derive(Debug, PartialEq, Eq)]
pub struct BatchSubmission {
    pub installation_id: u64,
    pub batch_id: String,
    pub action: BulkActionKind,
    pub user: UserId,
    pub targets: Vec<SubmittedTarget>,
    pub retried_from: Option<String>,
    /// What the projection had for each target looked up so far.
    pub rows: Vec<Option<PrRecord>>,
}

pub open spec fn none_left(submitted: nat) -> Seq<char> {
    "none of the "@ + decimal(submitted)
        + " pull requests submitted are still in the dashboard"@
}

impl BatchSubmission {
    pub open spec fn wf(self) -> bool {
        &&& batch_fault(
            self.batch_id@,
            owned_said(self.retried_from),
            submitted_keys(self.targets@),
        ) is None
        &&& self.rows.len() <= self.targets.len()
        &&& forall|i: int|
            0 <= i < self.rows.len() ==> ((#[trigger] self.rows[i]) matches Some(row)
                ==> row.installation_id == self.installation_id)
    }

    /// Holds a submission to the batch rules, before anything is looked up.
    pub fn begin(
        installation_id: u64,
        user: UserId,
        batch_id: &str,
        action: BulkActionKind,
        targets: Vec<SubmittedTarget>,
        retried_from: Option<String>,
    ) -> (submission: Result<BatchSubmission, String>)
        ensures
            match batch_fault(
                batch_id@,
                owned_said(retried_from),
                submitted_keys(targets@),
            ) {
                Some(fault) => submission matches Err(message) && message@ == fault.spec_text(),
                None => submission matches Ok(submission) && submission.wf()
                    && submission.installation_id == installation_id && submission.batch_id@
                    == batch_id@ && submission.action == action && submission.user == user
                    && submission.targets == targets && submission.retried_from == retried_from
                    && submission.rows.len() == 0,
            },
    {
        let mut keys: Vec<PrKey> = Vec::new();
        let mut i: usize = 0;
        while i < targets.len()
            invariant
                i <= targets.len(),
                keys@ == submitted_keys(targets@.take(i as int)),
            decreases targets.len() - i,
        {
            keys.push(targets[i].key());
            assert(submitted_keys(targets@.take(i + 1)) =~= submitted_keys(
                targets@.take(i as int),
            ).push(targets@[i as int].spec_key()));
            i += 1;
        }
        assert(targets@.take(i as int) == targets@);
        match validate_batch(batch_id, borrow_text(&retried_from), &keys) {
            Err(invalid) => Err(invalid.text()),
            Ok(()) => Ok(
                BatchSubmission {
                    installation_id,
                    batch_id: batch_id.to_owned(),
                    action,
                    user,
                    targets,
                    retried_from,
                    rows: Vec::new(),
                },
            ),
        }
    }

    /// The key to look up next, until every target has been.
    pub fn next(&self) -> (key: Option<PrKey>)
        requires
            self.wf(),
        ensures
            key == (if self.rows.len() < self.targets.len() {
                Some(self.targets[self.rows.len() as int].spec_key())
            } else {
                None
            }),
    {
        if self.rows.len() < self.targets.len() {
            Some(self.targets[self.rows.len()].key())
        } else {
            None
        }
    }

    /// Takes what the projection had for the key looked up. A target of another installation
    /// refuses the batch whole.
    pub fn note(&mut self, row: Option<PrRecord>) -> (noted: Result<(), String>)
        requires
            old(self).wf(),
            old(self).rows.len() < old(self).targets.len(),
        ensures
            final(self).wf(),
            final(self).installation_id == old(self).installation_id,
            final(self).batch_id == old(self).batch_id,
            final(self).action == old(self).action,
            final(self).user == old(self).user,
            final(self).targets == old(self).targets,
            final(self).retried_from == old(self).retried_from,
            if row matches Some(row) && row.installation_id != old(self).installation_id {
                &&& noted matches Err(message)
                &&& message@ == foreign(old(self).targets[old(self).rows.len() as int].number)
                &&& final(self).rows == old(self).rows
            } else {
                noted is Ok && final(self).rows@ == old(self).rows@.push(row)
            },
    {
        let key = self.targets[self.rows.len()].key();
        match projected_pr(self.installation_id, key, row) {
            Err(message) => Err(message),
            Ok(row) => {
                self.rows.push(row);
                Ok(())
            },
        }
    }

    /// The batch to run and what its submitter is told, once every target has been looked up.
    /// A submission that leaves nothing to run is refused.
    pub fn finish(self) -> (finished: Result<(BulkRequest, BatchReceipt), String>)
        requires
            self.wf(),
            self.rows.len() == self.targets.len(),
        ensures
            match finished {
                Err(message) => resolved(self.targets@, self.rows@).len() == 0 && message@
                    == none_left(self.targets.len() as nat),
                Ok((request, receipt)) => {
                    &&& resolved(self.targets@, self.rows@).len() > 0
                    &&& request.targets@ == resolved(self.targets@, self.rows@)
                    &&& request.action == self.action
                    &&& request.user_id == self.user
                    &&& request.retried_from == self.retried_from
                    &&& receipt.left_out@ == left_out(self.targets@, self.rows@)
                },
            },
    {
        let mut targets: Vec<PrTarget> = Vec::new();
        let mut missing: Vec<PrKey> = Vec::new();
        let mut i: usize = 0;
        while i < self.rows.len()
            invariant
                i <= self.rows.len(),
                self.rows.len() == self.targets.len(),
                targets@ == resolved(self.targets@, self.rows@.take(i as int)),
                missing@ == left_out(self.targets@, self.rows@.take(i as int)),
            decreases self.rows.len() - i,
        {
            assert(self.rows@.take(i + 1).drop_last() =~= self.rows@.take(i as int));
            match &self.rows[i] {
                Some(row) => {
                    targets.push(
                        PrTarget {
                            repository_id: row.repository_id,
                            owner: row.owner.clone(),
                            repo: row.repo.clone(),
                            number: row.number,
                            expected_sha: self.targets[i].expected_sha.clone(),
                            title: row.title.clone(),
                            html_url: row.html_url.clone(),
                        },
                    );
                },
                None => {
                    missing.push(self.targets[i].key());
                },
            }
            i += 1;
        }
        assert(self.rows@.take(i as int) == self.rows@);
        if targets.len() == 0 {
            let mut message = "none of the ".to_owned();
            message.append(decimal_text(self.targets.len() as u64).as_str());
            message.append(" pull requests submitted are still in the dashboard");
            return Err(message);
        }
        Ok(
            (
                BulkRequest {
                    action: self.action,
                    targets,
                    user_id: self.user,
                    retried_from: self.retried_from,
                },
                BatchReceipt { left_out: missing },
            ),
        )
    }
}

pub open spec fn no_longer(number: u64) -> Seq<char> {
    "pull request #"@ + decimal(number as nat) + " is no longer in the dashboard"@
}

/// The sync to ask for when a browser wants a pull request refreshed. A key the projection has
/// no row for is refused, since there is nothing to refresh.
pub fn request_pr_sync(
    installation_id: u64,
    key: PrKey,
    row: Option<PrRecord>,
    completion_id: &str,
) -> (request: Result<ManualSyncRequest, String>)
    ensures
        match row {
            None => request matches Err(message) && message@ == no_longer(key.number),
            Some(row) => if row.installation_id != installation_id {
                request matches Err(message) && message@ == foreign(key.number)
            } else {
                request matches Ok(request) && request.repository_id == row.repository_id
                    && request.owner == row.owner && request.repo == row.repo && request.number
                    == row.number && request.completion_id@ == completion_id@
            },
        },
{
    match projected_pr(installation_id, key, row) {
        Err(message) => Err(message),
        Ok(None) => {
            let mut message = "pull request #".to_owned();
            message.append(decimal_text(key.number).as_str());
            message.append(" is no longer in the dashboard");
            Err(message)
        },
        Ok(Some(row)) => Ok(
            ManualSyncRequest {
                repository_id: row.repository_id,
                owner: row.owner,
                repo: row.repo,
                number: row.number,
                completion_id: completion_id.to_owned(),
            },
        ),
    }
}

/// What to ask Restate when a browser wants a pull request's durable state: nothing where the
/// projection has no row for it, which is how the browser learns it is no longer open.
pub fn load_pr_status(installation_id: u64, key: PrKey, row: Option<PrRecord>) -> (asked: Result<
    Option<Invocation>,
    String,
>)
    ensures
        match row {
            None => asked == Ok::<Option<Invocation>, String>(None),
            Some(row) => if row.installation_id != installation_id {
                asked matches Err(message) && message@ == foreign(key.number)
            } else {
                asked matches Ok(Some(invocation)) && invocation.is(
                    Delivery::Call,
                    status_path(key.repository_id, key.number),
                    None,
                    false,
                )
            },
        },
{
    match projected_pr(installation_id, key, row) {
        Err(message) => Err(message),
        Ok(None) => Ok(None),
        Ok(Some(_)) => Ok(Some(pull_request_status(key))),
    }
}

/// Holds a batch id that a browser asks after to the shape of one.
pub fn batch_asked_after(batch_id: &str) -> (allowed: Result<(), String>)
    ensures
        if is_batch_id(batch_id@) {
            allowed is Ok
        } else {
            allowed matches Err(message) && message@ == InvalidBatch::BatchId.spec_text()
        },
{
    if valid_batch_id(batch_id) {
        Ok(())
    } else {
        Err(InvalidBatch::BatchId.text())
    }
}

/// How many finished batches a read lists: as many as asked for, within bounds.
pub fn recent_batches_limit(limit: u32) -> (held: u32)
    ensures
        held == (if limit < 1 {
            1
        } else if limit > MAX_RECENT_BATCHES {
            MAX_RECENT_BATCHES
        } else {
            limit
        }),
{
    if limit < 1 {
        1
    } else if limit > MAX_RECENT_BATCHES {
        MAX_RECENT_BATCHES
    } else {
        limit
    }
}

/// How a read of the projection fails.
#[derive(Debug, PartialEq, Eq)]
pub enum ReadFailure {
    /// The page cursor the browser sent does not parse.
    Cursor(String),
    /// Anything else, with what the store said.
    Store(String),
}

/// What a browser is told of a failed read. A cursor it sent is its own fault and is named;
/// anything else can carry connection strings and credentials, and is not.
pub fn store_failure(failure: ReadFailure) -> (message: String)
    ensures
        message@ == (match failure {
            ReadFailure::Cursor(cursor) => cursor@,
            ReadFailure::Store(_) => "The read model is unavailable"@,
        }),
{
    match failure {
        ReadFailure::Cursor(cursor) => cursor,
        ReadFailure::Store(_) => "The read model is unavailable".to_owned(),
    }
}

/// What a browser is told when Restate did not take a request, whatever it said.
pub fn restate_unavailable(error: &RestateIngressError) -> (message: String)
    ensures
        message@ == "Restate is unavailable"@,
{
    "Restate is unavailable".to_owned()
}

/// Whatever an infrastructure failure was, the browser is told the same: that the store or
/// that Restate is away, and nothing of why.
pub proof fn law_infrastructure_failures_are_told_without_their_detail(
    left: String,
    right: String,
    of_left: String,
    of_right: String,
    left_error: RestateIngressError,
    right_error: RestateIngressError,
    of_left_error: String,
    of_right_error: String,
)
    requires
        call_ensures(store_failure, (ReadFailure::Store(left),), of_left),
        call_ensures(store_failure, (ReadFailure::Store(right),), of_right),
        call_ensures(restate_unavailable, (&left_error,), of_left_error),
        call_ensures(restate_unavailable, (&right_error,), of_right_error),
    ensures
        of_left@ == of_right@,
        of_left_error@ == of_right_error@,
{
}

/// Each row stands for the target it was looked up for.
pub open spec fn rows_are_of(
    targets: Seq<SubmittedTarget>,
    rows: Seq<Option<PrRecord>>,
) -> bool {
    rows.len() <= targets.len() && forall|i: int|
        0 <= i < rows.len() ==> ((#[trigger] rows[i]) matches Some(row) ==> row.spec_key()
            == targets[i].spec_key())
}

/// Every target submitted is run or left out, none of them both.
pub proof fn law_every_target_is_run_or_left_out(
    targets: Seq<SubmittedTarget>,
    rows: Seq<Option<PrRecord>>,
)
    requires
        rows.len() <= targets.len(),
    ensures
        resolved(targets, rows).len() + left_out(targets, rows).len() == rows.len(),
        forall|i: int|
            0 <= i < rows.len() ==> match #[trigger] rows[i] {
                Some(row) => resolved(targets, rows).contains(resolved_target(targets[i], row)),
                None => left_out(targets, rows).contains(targets[i].spec_key()),
            },
    decreases rows.len(),
{
    if rows.len() > 0 {
        let shorter = rows.drop_last();
        law_every_target_is_run_or_left_out(targets, shorter);
        let last = rows.len() - 1;
        assert forall|i: int| 0 <= i < rows.len() implies match #[trigger] rows[i] {
            Some(row) => resolved(targets, rows).contains(resolved_target(targets[i], row)),
            None => left_out(targets, rows).contains(targets[i].spec_key()),
        } by {
            if i < last {
                assert(shorter[i] == rows[i]);
                match rows[i] {
                    Some(row) => {
                        let wanted = resolved_target(targets[i], row);
                        let before = resolved(targets, shorter);
                        let k = choose|k: int| 0 <= k < before.len() && before[k] == wanted;
                        assert(resolved(targets, rows)[k] == wanted);
                    },
                    None => {
                        let wanted = targets[i].spec_key();
                        let before = left_out(targets, shorter);
                        let k = choose|k: int| 0 <= k < before.len() && before[k] == wanted;
                        assert(left_out(targets, rows)[k] == wanted);
                    },
                }
            } else {
                match rows[i] {
                    Some(row) => {
                        let all = resolved(targets, rows);
                        assert(all[all.len() - 1] == resolved_target(targets[i], row));
                    },
                    None => {
                        let all = left_out(targets, rows);
                        assert(all[all.len() - 1] == targets[i].spec_key());
                    },
                }
            }
        }
    }
}

/// What the resolved targets stand for: each of them for a row, in the order of the rows.
proof fn lemma_resolved_places(targets: Seq<SubmittedTarget>, rows: Seq<Option<PrRecord>>) -> (places:
    Seq<int>)
    ensures
        places.len() == resolved(targets, rows).len(),
        places.len() <= rows.len(),
        forall|i: int|
            0 <= i < places.len() ==> 0 <= #[trigger] places[i] < rows.len() && rows[places[i]]
                is Some && resolved(targets, rows)[i] == resolved_target(
                targets[places[i]],
                rows[places[i]]->0,
            ),
        forall|i: int, j: int|
            0 <= i < j < places.len() ==> #[trigger] places[i] < #[trigger] places[j],
    decreases rows.len(),
{
    if rows.len() == 0 {
        Seq::empty()
    } else {
        let shorter = rows.drop_last();
        let before = lemma_resolved_places(targets, shorter);
        let last = rows.len() - 1;
        assert forall|i: int| 0 <= i < before.len() implies rows[#[trigger] before[i]]
            == shorter[before[i]] by {}
        match rows[last] {
            Some(_) => before.push(last),
            None => before,
        }
    }
}

/// A batch that was submitted under the rules passes the workflow's own, whatever was left
/// out of it.
pub proof fn law_a_submitted_batch_passes_the_workflows_rules(
    submission: BatchSubmission,
    request: BulkRequest,
    receipt: BatchReceipt,
)
    requires
        submission.wf(),
        submission.rows.len() == submission.targets.len(),
        rows_are_of(submission.targets@, submission.rows@),
        call_ensures(BatchSubmission::finish, (submission,), Ok((request, receipt))),
    ensures
        is_batch_id(submission.batch_id@),
        0 < request.targets.len() <= MAX_BATCH_TARGETS,
        distinct_keys(request.targets@),
        all_distinct(target_keys(request.targets@)),
{
    let targets = submission.targets@;
    let places = lemma_resolved_places(targets, submission.rows@);
    let keys = submitted_keys(targets);
    assert forall|i: int, j: int| 0 <= i < j < request.targets@.len() implies (
    #[trigger] request.targets@[i]).spec_key() != (#[trigger] request.targets@[j]).spec_key() by {
        assert(places[i] < places[j]);
        assert(keys[places[i]] != keys[places[j]]);
    }
    let run = target_keys(request.targets@);
    assert forall|i: int, j: int| 0 <= i < j < run.len() implies #[trigger] run[i]
        != #[trigger] run[j] by {
        assert(request.targets@[i].spec_key() != request.targets@[j].spec_key());
    }
}

/// Nothing of another installation is ever run: each target of a batch stands for a row of the
/// configured installation, with the row's word on it and the browser's on the head.
pub proof fn law_a_batch_holds_the_installations_own_rows(
    submission: BatchSubmission,
    request: BulkRequest,
    receipt: BatchReceipt,
    i: int,
)
    requires
        submission.wf(),
        submission.rows.len() == submission.targets.len(),
        call_ensures(BatchSubmission::finish, (submission,), Ok((request, receipt))),
        0 <= i < request.targets.len(),
    ensures
        exists|p: int|
            0 <= p < submission.rows.len() && ((#[trigger] submission.rows[p]) matches Some(row)
                && row.installation_id == submission.installation_id && request.targets[i]
                == resolved_target(submission.targets[p], row)),
{
    let places = lemma_resolved_places(submission.targets@, submission.rows@);
    let p = places[i];
    assert(submission.rows[p] is Some);
}

/// A batch's id is 36 characters: hexadecimal digits of either case, but for hyphens after the
/// eighth, twelfth, sixteenth and twentieth of them, with the version 7 at its place and the
/// variant 8, 9, a or b at its own.
pub proof fn law_what_a_batch_id_is(text: &str, valid: bool)
    requires
        call_ensures(valid_batch_id, (text,), valid),
    ensures
        valid <==> {
            &&& text@.len() == 36
            &&& text@[8] == '-' && text@[13] == '-' && text@[18] == '-' && text@[23] == '-'
            &&& text@[14] == '7'
            &&& text@[19] == '8' || text@[19] == '9' || text@[19] == 'a' || text@[19] == 'b'
                || text@[19] == 'A' || text@[19] == 'B'
            &&& forall|i: int|
                0 <= i < 36 && i != 8 && i != 13 && i != 18 && i != 23 ==> '0' <= #[trigger] text@[i]
                    <= '9' || 'a' <= text@[i] <= 'f' || 'A' <= text@[i] <= 'F'
        },
{
    if valid {
        assert(text@[8] == '-' && text@[13] == '-' && text@[18] == '-' && text@[23] == '-');
    }
}

/// A minted id says when it was minted: its first twelve hexadecimal digits are the moment's,
/// in milliseconds, so that two minted at different moments differ there.
pub proof fn law_a_minted_id_says_when_it_was_minted(
    unix_millis: u64,
    random: (u64, u64),
    id: String,
    upper: String,
    lower: String,
    text: &str,
    valid: bool,
)
    requires
        call_ensures(new_batch_id, (unix_millis, random), id),
        call_ensures(hex_text, (unix_millis / 0x1_0000, 8), upper),
        call_ensures(hex_text, (unix_millis, 4), lower),
        text@ == id@,
        call_ensures(valid_batch_id, (text,), valid),
    ensures
        id@.subrange(0, 8) == upper@,
        id@.subrange(9, 13) == lower@,
        valid,
{
    reveal_strlit("-");
    reveal_strlit("-7");
    lemma_hex(unix_millis as nat / 0x1_0000, 8);
    lemma_hex(unix_millis as nat, 4);
    assert(id@.subrange(0, 8) =~= upper@);
    assert(id@.subrange(9, 13) =~= lower@);
}

/// A minted id carries 74 of its random bits: twelve behind the version, fourteen with the
/// variant and 48 at its end.
pub proof fn law_a_minted_id_carries_its_random_bits(
    unix_millis: u64,
    random: (u64, u64),
    id: String,
    behind_version: String,
    with_variant: String,
    at_end: String,
)
    requires
        call_ensures(new_batch_id, (unix_millis, random), id),
        call_ensures(hex_text, (random.0, 3), behind_version),
        call_ensures(
            hex_text,
            ((0x8000 + random.0 / 0x1000 % 0x4000) as u64, 4),
            with_variant,
        ),
        call_ensures(hex_text, (random.1, 12), at_end),
    ensures
        id@.len() == 36,
        id@.subrange(15, 18) == behind_version@,
        id@.subrange(19, 23) == with_variant@,
        id@.subrange(24, 36) == at_end@,
{
    reveal_strlit("-");
    reveal_strlit("-7");
    let variant = 0x8000 + random.0 as nat / 0x1000 % 0x4000;
    lemma_hex(unix_millis as nat / 0x1_0000, 8);
    lemma_hex(unix_millis as nat, 4);
    lemma_hex(random.0 as nat, 3);
    lemma_hex(variant, 4);
    lemma_hex(random.1 as nat, 12);
    assert(id@.subrange(15, 18) =~= behind_version@);
    assert(id@.subrange(19, 23) =~= with_variant@);
    assert(id@.subrange(24, 36) =~= at_end@);
}

/// The batch rules, in the order they are held to: the batch's id is one, so is the id of the
/// batch it retries, it names from 1 to 100 pull requests, and none of them twice.
pub proof fn law_the_batch_rules(
    batch_id: &str,
    retried_from: &str,
    keys: &Vec<PrKey>,
    id_is_one: bool,
    retried_is_one: bool,
    fresh: Result<(), InvalidBatch>,
    retry: Result<(), InvalidBatch>,
)
    requires
        call_ensures(valid_batch_id, (batch_id,), id_is_one),
        call_ensures(valid_batch_id, (retried_from,), retried_is_one),
        call_ensures(validate_batch, (batch_id, None::<&str>, keys), fresh),
        call_ensures(validate_batch, (batch_id, Some(retried_from), keys), retry),
    ensures
        ({
            let twice = exists|i: int, j: int|
                0 <= i < j < keys.len() && (#[trigger] keys[i]).repository_id == (
                #[trigger] keys[j]).repository_id && keys[i].number == keys[j].number;
            if !id_is_one {
                fresh == Err::<(), InvalidBatch>(InvalidBatch::BatchId)
            } else if keys.len() < 1 || keys.len() > 100 {
                fresh == Err::<(), InvalidBatch>(InvalidBatch::TargetCount)
            } else if twice {
                fresh == Err::<(), InvalidBatch>(InvalidBatch::DuplicateTargets)
            } else {
                fresh is Ok
            }
        }),
        id_is_one && !retried_is_one ==> retry == Err::<(), InvalidBatch>(
            InvalidBatch::RetriedFrom,
        ),
        !id_is_one || retried_is_one ==> (retry is Ok <==> fresh is Ok) && (retry matches Err(
            fault,
        ) ==> fresh == Err::<(), InvalidBatch>(fault)),
{
    if exists|i: int, j: int|
        0 <= i < j < keys.len() && (#[trigger] keys[i]).repository_id == (
        #[trigger] keys[j]).repository_id && keys[i].number == keys[j].number {
        let (i, j) = choose|i: int, j: int|
            0 <= i < j < keys.len() && (#[trigger] keys[i]).repository_id == (
            #[trigger] keys[j]).repository_id && keys[i].number == keys[j].number;
        assert(keys@[i] == keys@[j]);
        assert(!all_distinct(keys@));
    } else {
        assert forall|i: int, j: int| 0 <= i < j < keys@.len() implies #[trigger] keys@[i]
            != #[trigger] keys@[j] by {
            assert(keys[i].repository_id != keys[j].repository_id || keys[i].number
                != keys[j].number);
        }
    }
}

/// The workflow holds a batch to the rules again: its key is an id, and it names from 1 to 100
/// pull requests and none of them twice. What breaks them fails for good and says which.
pub proof fn law_the_workflows_own_rules(
    batch_id: &str,
    request: &BulkRequest,
    id_is_one: bool,
    valid: Result<(), Fault>,
)
    requires
        call_ensures(valid_batch_id, (batch_id,), id_is_one),
        call_ensures(validate_batch_request, (batch_id, request), valid),
    ensures
        ({
            let targets = request.targets;
            let twice = exists|i: int, j: int|
                0 <= i < j < targets.len() && (#[trigger] targets[i]).repository_id == (
                #[trigger] targets[j]).repository_id && targets[i].number == targets[j].number;
            if !id_is_one {
                valid matches Err(Fault::Terminal(said)) && said@ == "batch key must be a UUIDv7"@
            } else if targets.len() < 1 || targets.len() > 100 {
                valid matches Err(Fault::Terminal(said)) && said@
                    == "batch must contain between 1 and 100 targets"@
            } else if twice {
                valid matches Err(Fault::Terminal(said)) && said@
                    == "batch contains duplicate pull requests"@
            } else {
                valid is Ok
            }
        }),
{
    lemma_count_rule();
    let targets = request.targets;
    let keys = target_keys(targets@);
    if exists|i: int, j: int|
        0 <= i < j < targets.len() && (#[trigger] targets[i]).repository_id == (
        #[trigger] targets[j]).repository_id && targets[i].number == targets[j].number {
        let (i, j) = choose|i: int, j: int|
            0 <= i < j < targets.len() && (#[trigger] targets[i]).repository_id == (
            #[trigger] targets[j]).repository_id && targets[i].number == targets[j].number;
        assert(keys[i] == keys[j]);
    } else {
        assert forall|i: int, j: int| 0 <= i < j < keys.len() implies #[trigger] keys[i]
            != #[trigger] keys[j] by {
            assert(targets[i].repository_id != targets[j].repository_id || targets[i].number
                != targets[j].number);
        }
    }
}

proof fn lemma_count_rule()
    ensures
        count_rule() == "batch must contain between 1 and 100 targets"@,
{
    reveal_strlit("batch must contain between 1 and ");
    reveal_strlit(" targets");
    reveal_strlit("batch must contain between 1 and 100 targets");
    reveal_with_fuel(decimal, 3);
    assert(count_rule() =~= "batch must contain between 1 and 100 targets"@);
}

/// What each rule that is broken is told with.
pub proof fn law_what_an_invalid_batch_is_told(
    batch_id: String,
    retried_from: String,
    count: String,
    duplicates: String,
)
    requires
        call_ensures(InvalidBatch::text, (&InvalidBatch::BatchId,), batch_id),
        call_ensures(InvalidBatch::text, (&InvalidBatch::RetriedFrom,), retried_from),
        call_ensures(InvalidBatch::text, (&InvalidBatch::TargetCount,), count),
        call_ensures(InvalidBatch::text, (&InvalidBatch::DuplicateTargets,), duplicates),
    ensures
        batch_id@ == "batch id must be a UUIDv7"@,
        retried_from@ == "the batch retried must be named by a UUIDv7"@,
        count@ == "batch must contain between 1 and 100 targets"@,
        duplicates@ == "batch contains duplicate pull requests"@,
{
    lemma_count_rule();
}

/// A row of another installation is refused by the number that was asked for, whatever is
/// asked of it; a row of this one, or none, is taken as it is.
pub proof fn law_another_installations_row_is_refused(
    installation_id: u64,
    key: PrKey,
    row: PrRecord,
    completion_id: &str,
    projected: Result<Option<PrRecord>, String>,
    missing: Result<Option<PrRecord>, String>,
    refresh: Result<ManualSyncRequest, String>,
    refresh_missing: Result<ManualSyncRequest, String>,
    status: Result<Option<Invocation>, String>,
    status_missing: Result<Option<Invocation>, String>,
)
    requires
        call_ensures(projected_pr, (installation_id, key, Some(row)), projected),
        call_ensures(projected_pr, (installation_id, key, None), missing),
        call_ensures(request_pr_sync, (installation_id, key, Some(row), completion_id), refresh),
        call_ensures(request_pr_sync, (installation_id, key, None, completion_id), refresh_missing),
        call_ensures(load_pr_status, (installation_id, key, Some(row)), status),
        call_ensures(load_pr_status, (installation_id, key, None), status_missing),
    ensures
        row.installation_id != installation_id ==> {
            let refusal = "pull request #"@ + decimal(key.number as nat)
                + " does not belong to the configured installation"@;
            &&& projected is Err && projected->Err_0@ == refusal
            &&& refresh is Err && refresh->Err_0@ == refusal
            &&& status is Err && status->Err_0@ == refusal
        },
        row.installation_id == installation_id ==> {
            &&& projected == Ok::<Option<PrRecord>, String>(Some(row))
            &&& refresh matches Ok(request)
            &&& request.repository_id == row.repository_id
            &&& request.owner == row.owner
            &&& request.repo == row.repo
            &&& request.number == row.number
            &&& request.completion_id@ == completion_id@
            &&& status matches Ok(Some(invocation))
            &&& invocation.delivery is Call
            &&& invocation.path@ == "PullRequest/"@ + decimal(key.repository_id as nat) + "%23"@
                + decimal(key.number as nat) + "/status"@
        },
        missing == Ok::<Option<PrRecord>, String>(None),
        refresh_missing is Err && refresh_missing->Err_0@ == "pull request #"@ + decimal(
            key.number as nat,
        ) + " is no longer in the dashboard"@,
        status_missing == Ok::<Option<Invocation>, String>(None),
{
}

proof fn lemma_resolved_at(
    targets: Seq<SubmittedTarget>,
    rows: Seq<Option<PrRecord>>,
    found: spec_fn(Option<PrRecord>) -> bool,
    missing: spec_fn(Option<PrRecord>) -> bool,
)
    requires
        forall|row: Option<PrRecord>| #[trigger] found(row) <==> row is Some,
        forall|row: Option<PrRecord>| #[trigger] missing(row) <==> row is None,
    ensures
        resolved(targets, rows).len() == rows.filter(found).len(),
        left_out(targets, rows).len() == rows.filter(missing).len(),
        forall|p: int|
            #![trigger rows[p]]
            0 <= p < rows.len() && rows[p] is Some ==> rows.take(p).filter(found).len() < resolved(
                targets,
                rows,
            ).len() && resolved(targets, rows)[rows.take(p).filter(found).len() as int]
                == resolved_target(targets[p], rows[p]->0),
        forall|p: int|
            #![trigger rows[p]]
            0 <= p < rows.len() && rows[p] is None ==> rows.take(p).filter(missing).len()
                < left_out(targets, rows).len() && left_out(targets, rows)[rows.take(p).filter(
                missing,
            ).len() as int] == targets[p].spec_key(),
    decreases rows.len(),
{
    if rows.len() == 0 {
        assert(rows.filter(found).len() == 0 && rows.filter(missing).len() == 0) by {
            reveal(Seq::filter);
        }
    } else {
        let shorter = rows.drop_last();
        lemma_resolved_at(targets, shorter, found, missing);
        let last = rows.len() - 1;
        assert(rows.filter(found).len() == shorter.filter(found).len() + (if rows.last() is Some {
            1int
        } else {
            0
        })) by {
            reveal(Seq::filter);
            assert(found(rows.last()) <==> rows.last() is Some);
        }
        assert(rows.filter(missing).len() == shorter.filter(missing).len() + (if rows.last()
            is None {
            1int
        } else {
            0
        })) by {
            reveal(Seq::filter);
            assert(missing(rows.last()) <==> rows.last() is None);
        }
        assert(rows.take(last) =~= shorter);
        assert forall|p: int|
            #![trigger rows[p]]
            0 <= p < rows.len() implies (rows[p] is Some ==> rows.take(p).filter(found).len()
            < resolved(targets, rows).len() && resolved(targets, rows)[rows.take(p).filter(
            found,
        ).len() as int] == resolved_target(targets[p], rows[p]->0)) && (rows[p] is None
            ==> rows.take(p).filter(missing).len() < left_out(targets, rows).len() && left_out(
            targets,
            rows,
        )[rows.take(p).filter(missing).len() as int] == targets[p].spec_key()) by {
            if p < last {
                assert(shorter[p] == rows[p]);
                assert(shorter.take(p) =~= rows.take(p));
            }
        }
    }
}

/// A target that the projection has a row for runs at the place it was submitted at among those
/// that run: the row names it, field by field, and the browser its head. One without a row is
/// left out, under the key it was submitted with. A submission with nothing to run is refused by
/// how much it named.
pub proof fn law_what_becomes_of_each_submitted_target(
    submission: BatchSubmission,
    finished: Result<(BulkRequest, BatchReceipt), String>,
    p: int,
)
    requires
        submission.wf(),
        submission.rows.len() == submission.targets.len(),
        call_ensures(BatchSubmission::finish, (submission,), finished),
        0 <= p < submission.targets.len(),
    ensures
        ({
            let rows = submission.rows@;
            let found = |row: Option<PrRecord>| row is Some;
            let missing = |row: Option<PrRecord>| row is None;
            &&& finished is Ok <==> rows.filter(found).len() > 0
            &&& finished matches Err(message) ==> message@ == "none of the "@ + decimal(
                submission.targets.len() as nat,
            ) + " pull requests submitted are still in the dashboard"@
            &&& finished matches Ok((request, receipt)) ==> {
                &&& request.action == submission.action
                &&& request.user_id == submission.user
                &&& request.retried_from == submission.retried_from
                &&& request.targets.len() == rows.filter(found).len()
                &&& receipt.left_out.len() == rows.filter(missing).len()
                &&& rows[p] matches Some(row) ==> {
                    let target = request.targets@[rows.take(p).filter(found).len() as int];
                    &&& target.repository_id == row.repository_id
                    &&& target.owner == row.owner
                    &&& target.repo == row.repo
                    &&& target.number == row.number
                    &&& target.title == row.title
                    &&& target.html_url == row.html_url
                    &&& target.expected_sha == submission.targets[p].expected_sha
                }
                &&& rows[p] is None ==> {
                    let key = receipt.left_out@[rows.take(p).filter(missing).len() as int];
                    &&& key.repository_id == submission.targets[p].repository_id
                    &&& key.number == submission.targets[p].number
                }
            }
        }),
{
    lemma_resolved_at(
        submission.targets@,
        submission.rows@,
        |row: Option<PrRecord>| row is Some,
        |row: Option<PrRecord>| row is None,
    );
}

/// A submission is taken exactly where the batch rules take it, with nothing looked up yet; and
/// its targets are looked up one by one, in the order they were submitted, by the repository and
/// the number they name.
pub proof fn law_a_submission_is_looked_up_in_order(
    installation_id: u64,
    user: UserId,
    batch_id: &str,
    action: BulkActionKind,
    targets: Vec<SubmittedTarget>,
    keys: &Vec<PrKey>,
    valid: Result<(), InvalidBatch>,
    begun: Result<BatchSubmission, String>,
    at: BatchSubmission,
    next: Option<PrKey>,
)
    requires
        keys.len() == targets.len(),
        forall|i: int|
            0 <= i < targets.len() ==> (#[trigger] keys[i]).repository_id
                == targets[i].repository_id && keys[i].number == targets[i].number,
        call_ensures(validate_batch, (batch_id, None::<&str>, keys), valid),
        call_ensures(
            BatchSubmission::begin,
            (installation_id, user, batch_id, action, targets, None),
            begun,
        ),
        at.wf(),
        call_ensures(BatchSubmission::next, (&at,), next),
    ensures
        begun is Ok <==> valid is Ok,
        begun matches Ok(submission) ==> submission.installation_id == installation_id
            && submission.batch_id@ == batch_id@ && submission.action == action && submission.user
            == user && submission.targets == targets && submission.rows.len() == 0,
        next is Some <==> at.rows.len() < at.targets.len(),
        next matches Some(key) ==> key.repository_id
            == at.targets[at.rows.len() as int].repository_id && key.number
            == at.targets[at.rows.len() as int].number,
{
    assert(keys@ =~= submitted_keys(targets@)) by {
        assert forall|i: int| 0 <= i < keys@.len() implies #[trigger] keys@[i] == submitted_keys(
            targets@,
        )[i] by {
            assert(keys[i].repository_id == targets[i].repository_id);
        }
    }
}

/// A batch is asked after only by what could be its id.
pub proof fn law_a_batch_is_asked_after_by_its_id(
    batch_id: &str,
    id_is_one: bool,
    allowed: Result<(), String>,
)
    requires
        call_ensures(valid_batch_id, (batch_id,), id_is_one),
        call_ensures(batch_asked_after, (batch_id,), allowed),
    ensures
        allowed is Ok <==> id_is_one,
        allowed matches Err(message) ==> message@ == "batch id must be a UUIDv7"@,
{
}

/// A read lists from 1 to 100 finished batches, and as many as asked for within that.
pub proof fn law_how_many_finished_batches_a_read_lists(limit: u32, held: u32)
    requires
        call_ensures(recent_batches_limit, (limit,), held),
    ensures
        1 <= held <= 100,
        1 <= limit <= 100 ==> held == limit,
        limit > 100 ==> held == 100,
{
}

/// What a browser is told of a failure: its own cursor by what is wrong with it, and the rest
/// only by what is away.
pub proof fn law_what_a_browser_is_told_of_a_failure(
    detail: String,
    error: RestateIngressError,
    cursor: String,
    store: String,
    restate: String,
)
    requires
        call_ensures(store_failure, (ReadFailure::Cursor(detail),), cursor),
        call_ensures(store_failure, (ReadFailure::Store(detail),), store),
        call_ensures(restate_unavailable, (&error,), restate),
    ensures
        cursor@ == detail@,
        store@ == "The read model is unavailable"@,
        restate@ == "Restate is unavailable"@,
{
}

} // verus!
