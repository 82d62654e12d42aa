//! The GitHub webhook edge: verifies each delivery, reduces it to what it is routed by, and
//! forwards it under its delivery id so that redeliveries collapse into one invocation.

use octoevents::{Envelope, HeaderView, ResponseStatus, Secret, Verifier};
use vstd::prelude::*;

use crate::config::is_blank;
use crate::headers::{header_said, header_text, is_header_text, reads_as_text};
use crate::ingress::{goes, WebhookEvent, WebhookRejection, WebhookRoute, DASHBOARD_SYNC_ACTION};
use crate::model::clone_text;
use crate::text::{
    first_index, is_hex, lemma_first_index_unique, owned_said, said, same_text,
};

verus! {

/// The repository a delivery names.
#[derive(Debug, PartialEq, Eq)]
pub struct RepositoryRef {
    pub id: u64,
    pub owner: String,
    pub name: String,
}

/// A verified delivery.
#[derive(Debug, PartialEq, Eq)]
pub struct VerifiedDelivery {
    pub delivery_id: String,
    /// The event's kind, as GitHub names it.
    pub event: String,
    pub action: Option<String>,
    pub installation_id: Option<u64>,
    pub repository: Option<RepositoryRef>,
}

/// What a delivery says of itself, in values: its id, its kind, its action, its installation,
/// and its repository's id, owner and name.
pub type Told = (
    Seq<char>,
    Seq<char>,
    Option<Seq<char>>,
    Option<u64>,
    Option<(u64, Seq<char>, Seq<char>)>,
);

/// What a delivery says of itself, by its headers and what its body was read as.
pub open spec fn told_of(delivery_id: Seq<char>, event: Seq<char>, probed: Probed) -> Told {
    (delivery_id, event, probed.0, probed.1, probed.2)
}

impl VerifiedDelivery {
    pub open spec fn told(self) -> Told {
        (
            self.delivery_id@,
            self.event@,
            owned_said(self.action),
            self.installation_id,
            match self.repository {
                Some(repository) => Some((repository.id, repository.owner@, repository.name@)),
                None => None,
            },
        )
    }
}

/// What a payload says of its delivery, in values: its action, its installation, and its
/// repository's id, owner and name.
pub type Probed = (Option<Seq<char>>, Option<u64>, Option<(u64, Seq<char>, Seq<char>)>);

/// What `octoevents::Envelope::from_signed` reads out of a payload.
pub uninterp spec fn probed(body: Seq<u8>) -> Probed;

/// Whether `octoevents::Verifier::verify` finds a well-formed signature to be that of a body
/// under a secret: the HMAC-SHA256 of the one with the other.
pub uninterp spec fn signed_with(secret: Seq<char>, signature: Seq<char>, body: Seq<u8>) -> bool;

/// A signature that has its form: `sha256=` and sixty-four hexadecimal digits.
pub open spec fn is_signature(text: Seq<char>) -> bool {
    &&& text.len() == 71
    &&& text.take(7) == "sha256="@
    &&& forall|i: int| 7 <= i < 71 ==> is_hex(#[trigger] text[i])
}

pub open spec fn lower_char(c: char) -> char {
    if 'A' <= c <= 'Z' {
        (c as u32 + 32) as char
    } else {
        c
    }
}

/// A content type that is JSON, whatever its parameters: what stands before the first
/// semicolon is `application/json`, but for the case of its letters and the blanks around it.
pub open spec fn is_json_type(content_type: Seq<char>) -> bool {
    let media_type = content_type.take(first_index(content_type, ';'));
    exists|from: int, to: int|
        #![trigger media_type.subrange(from, to)]
        0 <= from <= to <= media_type.len() && is_blank(media_type.take(from)) && is_blank(
            media_type.skip(to),
        ) && media_type.subrange(from, to).map_values(|c: char| lower_char(c))
            == "application/json"@
}

/// The status a delivery is refused with, if it is: its signature is judged first, then its
/// content type, then the headers it has to have.
pub open spec fn refused_for(
    secret: Seq<char>,
    signature: Seq<char>,
    delivery_id: Seq<char>,
    event: Seq<char>,
    content_type: Seq<char>,
    body: Seq<u8>,
) -> Option<u16> {
    if !is_signature(signature) {
        Some(400)
    } else if !signed_with(secret, signature, body) {
        Some(401)
    } else if !is_json_type(content_type) || delivery_id.len() == 0 || event.len() == 0 {
        Some(400)
    } else {
        None
    }
}

/// Calls `octoevents::Envelope::from_signed` with a verifier of one secret and these headers,
/// and `ResponseStatus::for_receive_error` on what it refuses with. A signature of another
/// form is a bad request, one that does not match is unauthorized, and a content type that is
/// not JSON or an empty id or event is a bad request. What is accepted has the id and the
/// event of its headers, and the rest from its body alone. What a matching signature is, and
/// how the body is probed, are left unsaid.
#[verifier::external_body]
fn envelope_from_signed(
    secret: &str,
    signature: &str,
    delivery_id: &str,
    event: &str,
    content_type: &str,
    body: &[u8],
) -> (delivery: Result<VerifiedDelivery, u16>)
    requires
        secret@.len() > 0,
    ensures
        delivery is Ok <==> refused_for(
            secret@,
            signature@,
            delivery_id@,
            event@,
            content_type@,
            body@,
        ) is None,
        delivery is Err ==> refused_for(
            secret@,
            signature@,
            delivery_id@,
            event@,
            content_type@,
            body@,
        ) == Some(delivery->Err_0),
        delivery is Ok ==> signed_with(secret@, signature@, body@),
        delivery is Ok ==> delivery->Ok_0.told() == told_of(
            delivery_id@,
            event@,
            probed(body@),
        ),
{
    let headers = HeaderView::new().signature(signature).delivery_id(delivery_id)
        .event_name(event).content_type(content_type);
    let verifier = Verifier::new(Secret::new(secret));
    Envelope::from_signed(&verifier, &headers, bytes::Bytes::copy_from_slice(body))
        .map(|it| VerifiedDelivery {
            delivery_id: it.delivery_id,
            event: it.kind.as_str().to_owned(),
            action: it.action.map(|action| action.as_str().to_owned()),
            installation_id: it.common.installation_id,
            repository: it.common.repository.map(
                |it| RepositoryRef { id: it.id, owner: it.owner, name: it.name },
            ),
        })
        .map_err(|error| ResponseStatus::for_receive_error(&error).as_u16())
}

/// The headers and body of a delivery, as they arrived.
#[derive(Debug, PartialEq, Eq)]
pub struct RawDelivery {
    pub signature: Option<Vec<u8>>,
    pub delivery_id: Option<Vec<u8>>,
    pub event: Option<Vec<u8>>,
    pub content_type: Option<Vec<u8>>,
    pub body: Vec<u8>,
}

/// A header's text; empty where there is none.
pub open spec fn header_or_empty(value: Option<Vec<u8>>) -> Seq<char> {
    match header_said(value) {
        Some(text) => text,
        None => Seq::empty(),
    }
}

fn header_text_or_empty(value: &Option<Vec<u8>>) -> (text: String)
    ensures
        text@ == header_or_empty(*value),
{
    match header_text(value) {
        Some(text) => text,
        None => String::new(),
    }
}

/// The status the edge refuses a delivery with, if it does: one without a signature is
/// unauthorized, and one whose signature does not even read as text is malformed.
pub open spec fn edge_refuses(secret: Seq<char>, raw: RawDelivery) -> Option<u16> {
    match raw.signature {
        None => Some(401),
        Some(signature) => if !is_header_text(signature@) {
            Some(400)
        } else {
            refused_for(
                secret,
                header_or_empty(raw.signature),
                header_or_empty(raw.delivery_id),
                header_or_empty(raw.event),
                header_or_empty(raw.content_type),
                raw.body@,
            )
        },
    }
}

/// Authenticates a delivery before anything else is made of it.
pub fn receive_delivery(secret: &str, raw: &RawDelivery) -> (delivery: Result<
    VerifiedDelivery,
    u16,
>)
    requires
        secret@.len() > 0,
    ensures
        match delivery {
            Ok(delivery) => edge_refuses(secret@, *raw) is None && delivery.told() == told_of(
                header_or_empty(raw.delivery_id),
                header_or_empty(raw.event),
                probed(raw.body@),
            ),
            Err(status) => edge_refuses(secret@, *raw) == Some(status),
        },
{
    match &raw.signature {
        None => Err(401),
        Some(signature) => {
            if !reads_as_text(signature.as_slice()) {
                return Err(400);
            }
            envelope_from_signed(
                secret,
                header_text_or_empty(&raw.signature).as_str(),
                header_text_or_empty(&raw.delivery_id).as_str(),
                header_text_or_empty(&raw.event).as_str(),
                header_text_or_empty(&raw.content_type).as_str(),
                raw.body.as_slice(),
            )
        },
    }
}

/// The pull request a check belongs to.
#[derive(Clone, Copy, Debug, PartialEq, Eq, Structural)]
pub struct CheckPullRequest {
    pub number: u64,
}

/// What a check run or a check suite is routed by.
#[derive(Debug, PartialEq, Eq)]
pub struct CheckRouting {
    pub head_sha: String,
    pub pull_requests: Vec<CheckPullRequest>,
}

pub open spec fn numbers_in(pulls: Seq<CheckPullRequest>) -> Seq<u64> {
    pulls.map_values(|pull: CheckPullRequest| pull.number)
}

impl CheckRouting {
    /// The head a check ran on, and the numbers of its pull requests.
    pub fn into_routing(self) -> (routing: (String, Vec<u64>))
        ensures
            routing.0 == self.head_sha,
            routing.1@ == numbers_in(self.pull_requests@),
    {
        let mut numbers: Vec<u64> = Vec::new();
        let mut i: usize = 0;
        while i < self.pull_requests.len()
            invariant
                i <= self.pull_requests.len(),
                numbers@ == numbers_in(self.pull_requests@.take(i as int)),
            decreases self.pull_requests.len() - i,
        {
            numbers.push(self.pull_requests[i].number);
            assert(numbers_in(self.pull_requests@.take(i + 1)) =~= numbers_in(
                self.pull_requests@.take(i as int),
            ).push(self.pull_requests@[i as int].number));
            i += 1;
        }
        assert(self.pull_requests@.take(i as int) == self.pull_requests@);
        (self.head_sha, numbers)
    }
}

/// What a pull request's delivery is routed by.
#[derive(Debug, PartialEq, Eq)]
pub struct PullRequestRouting {
    pub number: u64,
    pub head_sha: String,
}

/// What has to be read out of a delivery's body to route it.
#[derive(Clone, Copy, Debug, PartialEq, Eq, Structural)]
pub enum PayloadKind {
    /// Nothing.
    Unread,
    PullRequest,
    CheckRun,
    CheckSuite,
    Status,
}

/// What was read out of a delivery's body.
#[derive(Debug, PartialEq, Eq)]
pub enum Payload {
    Unread,
    PullRequest(PullRequestRouting),
    Check(CheckRouting),
    Status { sha: String },
    /// The body did not hold what its kind has to; this says in what way.
    Unreadable(String),
}

pub open spec fn kind_of_payload(event: Seq<char>) -> PayloadKind {
    if event == "pull_request"@ {
        PayloadKind::PullRequest
    } else if event == "check_run"@ {
        PayloadKind::CheckRun
    } else if event == "check_suite"@ {
        PayloadKind::CheckSuite
    } else if event == "status"@ {
        PayloadKind::Status
    } else {
        PayloadKind::Unread
    }
}

/// What has to be read out of the body of a delivery of this kind.
pub fn payload_kind(event: &str) -> (kind: PayloadKind)
    ensures
        kind == kind_of_payload(event@),
{
    if same_text(event, "pull_request") {
        PayloadKind::PullRequest
    } else if same_text(event, "check_run") {
        PayloadKind::CheckRun
    } else if same_text(event, "check_suite") {
        PayloadKind::CheckSuite
    } else if same_text(event, "status") {
        PayloadKind::Status
    } else {
        PayloadKind::Unread
    }
}

/// A payload is what its kind is read as.
pub open spec fn payload_fits(kind: PayloadKind, payload: Payload) -> bool {
    match kind {
        PayloadKind::Unread => payload is Unread,
        PayloadKind::PullRequest => payload is PullRequest || payload is Unreadable,
        PayloadKind::CheckRun => payload is Check || payload is Unreadable,
        PayloadKind::CheckSuite => payload is Check || payload is Unreadable,
        PayloadKind::Status => payload is Status || payload is Unreadable,
    }
}

/// What the edge does with a verified delivery.
#[derive(Debug, PartialEq, Eq)]
pub enum Disposition {
    /// The dispatcher has an arm for this kind.
    Forward(WebhookEvent),
    /// Nothing downstream routes this kind: it is acknowledged to GitHub, and that is all.
    Acknowledge,
}

/// The kinds that are about an installation as a whole.
pub open spec fn is_installation_kind(event: Seq<char>) -> bool {
    event == "installation"@ || event == "installation_repositories"@
}

/// The kinds the edge forwards.
pub open spec fn is_forwarded_kind(event: Seq<char>) -> bool {
    is_installation_kind(event) || kind_of_payload(event) !is Unread
}

/// Nothing is read out of the body of a delivery about an installation.
proof fn lemma_kinds_are_apart()
    ensures
        forall|event: Seq<char>|
            #![trigger is_installation_kind(event)]
            is_installation_kind(event) ==> kind_of_payload(event) is Unread,
{
    reveal_strlit("pull_request");
    reveal_strlit("check_run");
    reveal_strlit("check_suite");
    reveal_strlit("status");
    reveal_strlit("installation");
    reveal_strlit("installation_repositories");
    assert("pull_request"@.len() == 12 && "check_run"@.len() == 9 && "check_suite"@.len() == 11
        && "status"@.len() == 6 && "installation"@.len() == 12
        && "installation_repositories"@.len() == 25);
    assert("pull_request"@[0] == 'p' && "installation"@[0] == 'i');
}

/// The number, head and pull requests that a payload gives.
pub open spec fn routed_by(payload: Payload) -> (Option<u64>, Option<Seq<char>>, Seq<u64>) {
    match payload {
        Payload::PullRequest(pull) => (Some(pull.number), Some(pull.head_sha@), Seq::empty()),
        Payload::Check(check) => (None, Some(check.head_sha@), numbers_in(check.pull_requests@)),
        Payload::Status { sha } => (None, Some(sha@), Seq::empty()),
        _ => (None, None, Seq::empty()),
    }
}

/// The event a delivery is forwarded as.
pub open spec fn forwarded_as(
    event: WebhookEvent,
    delivery: VerifiedDelivery,
    payload: Payload,
) -> bool {
    &&& event.event@ == delivery.event@
    &&& owned_said(event.action) == owned_said(delivery.action)
    &&& event.installation_id == delivery.installation_id
    &&& event.repository_id == (match delivery.repository {
        Some(repository) => Some(repository.id),
        None => None,
    })
    &&& owned_said(event.owner) == (match delivery.repository {
        Some(repository) => Some(repository.owner@),
        None => None,
    })
    &&& owned_said(event.repo) == (match delivery.repository {
        Some(repository) => Some(repository.name@),
        None => None,
    })
    &&& event.number == routed_by(payload).0
    &&& owned_said(event.sha) == routed_by(payload).1
    &&& event.pull_requests@ == routed_by(payload).2
    &&& event.sync_completion_id is None
}

/// What the edge makes of a verified delivery and its payload.
pub open spec fn disposed(
    delivery: VerifiedDelivery,
    payload: Payload,
    disposition: Result<Disposition, String>,
) -> bool {
    if !is_forwarded_kind(delivery.event@) {
        disposition == Ok::<Disposition, String>(Disposition::Acknowledge)
    } else if is_installation_kind(delivery.event@) && delivery.installation_id is None {
        disposition matches Err(message) && message@
            == "GitHub installation webhook is missing an installation id"@
    } else if payload is Unreadable {
        disposition == Err::<Disposition, String>(payload->Unreadable_0)
    } else if !is_installation_kind(delivery.event@) && delivery.repository is None {
        disposition matches Err(message) && message@
            == "GitHub repository webhook is missing routing fields"@
    } else {
        disposition matches Ok(Disposition::Forward(event)) && forwarded_as(
            event,
            delivery,
            payload,
        )
    }
}

/// Decides what the edge does with a verified delivery: forward it, reduced to what it is
/// dispatched by, or acknowledge it.
pub fn route_delivery(delivery: &VerifiedDelivery, payload: Payload) -> (disposition: Result<
    Disposition,
    String,
>)
    requires
        payload_fits(kind_of_payload(delivery.event@), payload),
    ensures
        disposed(*delivery, payload, disposition),
{
    let event = delivery.event.as_str();
    let of_installation = same_text(event, "installation") || same_text(
        event,
        "installation_repositories",
    );
    proof {
        lemma_kinds_are_apart();
    }
    let (number, sha, pull_requests): (Option<u64>, Option<String>, Vec<u64>) = match payload {
        Payload::Unread => {
            if !of_installation {
                return Ok(Disposition::Acknowledge);
            }
            if delivery.installation_id.is_none() {
                return Err("GitHub installation webhook is missing an installation id".to_owned());
            }
            (None, None, Vec::new())
        },
        Payload::PullRequest(pull) => (Some(pull.number), Some(pull.head_sha), Vec::new()),
        Payload::Check(check) => {
            let (head_sha, numbers) = check.into_routing();
            (None, Some(head_sha), numbers)
        },
        Payload::Status { sha } => (None, Some(sha), Vec::new()),
        Payload::Unreadable(message) => return Err(message),
    };
    if !of_installation && delivery.repository.is_none() {
        return Err("GitHub repository webhook is missing routing fields".to_owned());
    }
    let (repository_id, owner, repo): (Option<u64>, Option<String>, Option<String>) =
        match &delivery.repository {
        Some(repository) => (
            Some(repository.id),
            Some(repository.owner.clone()),
            Some(repository.name.clone()),
        ),
        None => (None, None, None),
    };
    Ok(
        Disposition::Forward(
            WebhookEvent {
                event: delivery.event.clone(),
                action: clone_text(&delivery.action),
                installation_id: delivery.installation_id,
                repository_id,
                owner,
                repo,
                number,
                sha,
                pull_requests,
                sync_completion_id: None,
            },
        ),
    )
}

/// The answer to a delivery.
#[derive(Clone, Copy, Debug, PartialEq, Eq)]
pub struct Reply {
    pub status: u16,
    pub message: Option<&'static str>,
}

impl Reply {
    pub open spec fn is(self, status: u16, message: Option<Seq<char>>) -> bool {
        self.status == status && said(self.message) == message
    }
}

/// The answer to a delivery that was refused.
pub fn refused_delivery(status: u16) -> (reply: Reply)
    ensures
        reply.is(status, Some("webhook delivery was rejected"@)),
{
    Reply { status, message: Some("webhook delivery was rejected") }
}

/// What is left to do with a delivery the edge has disposed of.
#[derive(Debug, PartialEq, Eq)]
pub enum EdgeStep {
    Answer(Reply),
    /// Forward the event to the dispatcher, and answer by what comes of it.
    Forward(WebhookEvent),
}

/// What is left to do with a delivery the edge has disposed of.
pub fn after_routing(disposition: Result<Disposition, String>) -> (step: EdgeStep)
    ensures
        match disposition {
            Ok(Disposition::Forward(event)) => step == EdgeStep::Forward(event),
            Ok(Disposition::Acknowledge) => step matches EdgeStep::Answer(reply) && reply.is(
                204,
                None,
            ),
            Err(_) => step matches EdgeStep::Answer(reply) && reply.is(
                400,
                Some("invalid GitHub webhook payload"@),
            ),
        },
{
    match disposition {
        Ok(Disposition::Forward(event)) => EdgeStep::Forward(event),
        Ok(Disposition::Acknowledge) => EdgeStep::Answer(Reply { status: 204, message: None }),
        Err(_) => EdgeStep::Answer(
            Reply { status: 400, message: Some("invalid GitHub webhook payload") },
        ),
    }
}

/// The answer to a delivery that was forwarded, by whether it was accepted.
pub fn forwarded_reply(accepted: bool) -> (reply: Reply)
    ensures
        if accepted {
            reply.is(200, None)
        } else {
            reply.is(502, Some("could not enqueue webhook"@))
        },
{
    if accepted {
        Reply { status: 200, message: None }
    } else {
        Reply { status: 502, message: Some("could not enqueue webhook") }
    }
}

/// The synthetic event that the dashboard's own refresh of a pull request is dispatched as.
pub fn manual_pr_sync_event(
    installation_id: u64,
    repository_id: u64,
    owner: String,
    repo: String,
    number: u64,
    observed_sha: String,
    completion_id: String,
) -> (event: WebhookEvent)
    ensures
        event.event@ == "pull_request"@,
        owned_said(event.action) == Some(DASHBOARD_SYNC_ACTION@),
        event.installation_id == Some(installation_id),
        event.repository_id == Some(repository_id),
        event.owner == Some(owner),
        event.repo == Some(repo),
        event.number == Some(number),
        event.sha == Some(observed_sha),
        event.pull_requests@.len() == 0,
        event.sync_completion_id == Some(completion_id),
{
    WebhookEvent {
        event: "pull_request".to_owned(),
        action: Some(DASHBOARD_SYNC_ACTION.to_owned()),
        installation_id: Some(installation_id),
        repository_id: Some(repository_id),
        owner: Some(owner),
        repo: Some(repo),
        number: Some(number),
        sha: Some(observed_sha),
        pull_requests: Vec::new(),
        sync_completion_id: Some(completion_id),
    }
}

/// Nothing is made of a delivery that is not signed under the secret: it is answered 401 or
/// 400, whatever else it holds.
pub proof fn law_a_delivery_that_is_not_signed_is_refused(
    secret: &str,
    raw: RawDelivery,
    delivery: Result<VerifiedDelivery, u16>,
)
    requires
        raw.signature is None || !is_header_text(raw.signature->0@) || !is_signature(
            header_or_empty(raw.signature),
        ) || !signed_with(secret@, header_or_empty(raw.signature), raw.body@),
        call_ensures(receive_delivery, (secret, &raw), delivery),
    ensures
        delivery matches Err(status) && (status == 401 || status == 400),
{
}

/// A delivery that is received names itself: it has an id and an event, those of its headers.
pub proof fn law_a_received_delivery_names_itself(
    secret: &str,
    raw: RawDelivery,
    delivery: VerifiedDelivery,
)
    requires
        call_ensures(receive_delivery, (secret, &raw), Ok(delivery)),
    ensures
        header_said(raw.delivery_id) == Some(delivery.delivery_id@),
        header_said(raw.event) == Some(delivery.event@),
        delivery.delivery_id@.len() > 0,
        delivery.event@.len() > 0,
{
}

/// The edge stays in step with the dispatcher: of what it acknowledges, the dispatcher would
/// have routed nothing.
pub proof fn law_what_the_edge_acknowledges_nothing_routes(
    installation_id: u64,
    event: WebhookEvent,
    route: WebhookRoute,
)
    requires
        !is_forwarded_kind(event.event@),
        goes(installation_id, event, Ok(route)),
    ensures
        route is Ignore,
{
}

/// What the edge forwards, the dispatcher never rejects for a missing field.
pub proof fn law_what_the_edge_forwards_lacks_nothing(
    installation_id: u64,
    delivery: VerifiedDelivery,
    payload: Payload,
    event: WebhookEvent,
    route: Result<WebhookRoute, WebhookRejection>,
)
    requires
        payload_fits(kind_of_payload(delivery.event@), payload),
        disposed(delivery, payload, Ok(Disposition::Forward(event))),
        goes(installation_id, event, route),
    ensures
        route matches Err(rejection) ==> rejection is ForeignInstallation,
{
    lemma_kinds_are_apart();
}

/// A refresh that the dashboard asks for of the deployment's own installation is dispatched as
/// a sync of that pull request, past the debounce, under its completion id.
pub proof fn law_a_manual_refresh_is_dispatched_as_a_sync(
    installation_id: u64,
    repository_id: u64,
    owner: String,
    repo: String,
    number: u64,
    observed_sha: String,
    completion_id: String,
    event: WebhookEvent,
    route: Result<WebhookRoute, WebhookRejection>,
)
    requires
        call_ensures(
            manual_pr_sync_event,
            (
                installation_id,
                repository_id,
                owner,
                repo,
                number,
                observed_sha,
                completion_id,
            ),
            event,
        ),
        goes(installation_id, event, route),
    ensures
        route matches Ok(WebhookRoute::SyncPullRequest(sync)) && sync.repository_id
            == repository_id && sync.owner == owner && sync.repo == repo && sync.number == number
            && sync.bypass_debounce && sync.completion_id == Some(completion_id),
{
    reveal_strlit("closed");
    assert(DASHBOARD_SYNC_ACTION@.len() == 14) by {
        reveal_strlit("dashboard_sync");
    }
}

proof fn lemma_event_words_are_apart()
    ensures
        "pull_request"@ != "check_run"@ && "pull_request"@ != "check_suite"@ && "pull_request"@
            != "status"@ && "pull_request"@ != "installation"@ && "pull_request"@
            != "installation_repositories"@,
        "check_run"@ != "check_suite"@ && "check_run"@ != "status"@ && "check_run"@
            != "installation"@ && "check_run"@ != "installation_repositories"@,
        "check_suite"@ != "status"@ && "check_suite"@ != "installation"@ && "check_suite"@
            != "installation_repositories"@,
        "status"@ != "installation"@ && "status"@ != "installation_repositories"@,
        "installation"@ != "installation_repositories"@,
{
    reveal_strlit("pull_request");
    reveal_strlit("check_run");
    reveal_strlit("check_suite");
    reveal_strlit("status");
    reveal_strlit("installation");
    reveal_strlit("installation_repositories");
    assert("pull_request"@.len() == 12 && "check_run"@.len() == 9 && "check_suite"@.len() == 11
        && "status"@.len() == 6 && "installation"@.len() == 12
        && "installation_repositories"@.len() == 25);
    assert("pull_request"@[0] == 'p' && "installation"@[0] == 'i');
}

/// What is read out of the body of each kind of delivery; nothing is of any other.
pub proof fn law_what_is_read_of_each_kind(event: &str, kind: PayloadKind)
    requires
        call_ensures(payload_kind, (event,), kind),
    ensures
        event@ == "pull_request"@ <==> kind is PullRequest,
        event@ == "check_run"@ <==> kind is CheckRun,
        event@ == "check_suite"@ <==> kind is CheckSuite,
        event@ == "status"@ <==> kind is Status,
        event@ != "pull_request"@ && event@ != "check_run"@ && event@ != "check_suite"@ && event@
            != "status"@ <==> kind is Unread,
{
    lemma_event_words_are_apart();
}

/// A delivery about a pull request or a commit goes on with what its body was read as, under its
/// own action, installation and repository; one whose body does not read, or that names no
/// repository, is refused by that.
pub proof fn law_what_a_repositorys_delivery_is_forwarded_as(
    delivery: VerifiedDelivery,
    payload: Payload,
    disposition: Result<Disposition, String>,
)
    requires
        delivery.event@ == "pull_request"@ ==> payload is PullRequest || payload is Unreadable,
        delivery.event@ == "check_run"@ || delivery.event@ == "check_suite"@ ==> payload is Check
            || payload is Unreadable,
        delivery.event@ == "status"@ ==> payload is Status || payload is Unreadable,
        delivery.event@ == "pull_request"@ || delivery.event@ == "check_run"@ || delivery.event@
            == "check_suite"@ || delivery.event@ == "status"@,
        call_ensures(route_delivery, (&delivery, payload), disposition),
    ensures
        payload matches Payload::Unreadable(message) ==> disposition == Err::<Disposition, String>(
            message,
        ),
        payload !is Unreadable && delivery.repository is None ==> disposition is Err
            && disposition->Err_0@ == "GitHub repository webhook is missing routing fields"@,
        payload !is Unreadable && delivery.repository is Some ==> {
            let repository = delivery.repository->0;
            &&& disposition matches Ok(Disposition::Forward(event))
            &&& event.event@ == delivery.event@
            &&& delivery.action is None <==> event.action is None
            &&& delivery.action is Some ==> event.action->0@ == delivery.action->0@
            &&& event.installation_id == delivery.installation_id
            &&& event.repository_id == Some(repository.id)
            &&& event.owner is Some && event.owner->0@ == repository.owner@
            &&& event.repo is Some && event.repo->0@ == repository.name@
            &&& event.sync_completion_id is None
            &&& payload matches Payload::PullRequest(pull) ==> event.number == Some(pull.number)
                && event.sha is Some && event.sha->0@ == pull.head_sha@
                && event.pull_requests.len() == 0
            &&& payload matches Payload::Check(check) ==> event.number is None && event.sha is Some
                && event.sha->0@ == check.head_sha@ && event.pull_requests.len()
                == check.pull_requests.len() && forall|i: int|
                0 <= i < check.pull_requests.len() ==> #[trigger] event.pull_requests@[i]
                    == check.pull_requests@[i].number
            &&& payload matches Payload::Status { sha } ==> event.number is None && event.sha
                is Some && event.sha->0@ == sha@ && event.pull_requests.len() == 0
        },
{
    lemma_event_words_are_apart();
}

/// A delivery about an installation goes on where it names one, and is refused where it does
/// not; one of a kind that nothing routes is acknowledged.
pub proof fn law_what_becomes_of_other_deliveries(
    delivery: VerifiedDelivery,
    disposition: Result<Disposition, String>,
)
    requires
        delivery.event@ != "pull_request"@ && delivery.event@ != "check_run"@ && delivery.event@
            != "check_suite"@ && delivery.event@ != "status"@,
        call_ensures(route_delivery, (&delivery, Payload::Unread), disposition),
    ensures
        delivery.event@ != "installation"@ && delivery.event@ != "installation_repositories"@
            ==> disposition == Ok::<Disposition, String>(Disposition::Acknowledge),
        (delivery.event@ == "installation"@ || delivery.event@ == "installation_repositories"@)
            && delivery.installation_id is None ==> disposition is Err && disposition->Err_0@
            == "GitHub installation webhook is missing an installation id"@,
        (delivery.event@ == "installation"@ || delivery.event@ == "installation_repositories"@)
            && delivery.installation_id is Some ==> {
            &&& disposition matches Ok(Disposition::Forward(event))
            &&& event.event@ == delivery.event@
            &&& delivery.action is None <==> event.action is None
            &&& delivery.action is Some ==> event.action->0@ == delivery.action->0@
            &&& event.installation_id == delivery.installation_id
            &&& event.number is None && event.sha is None && event.pull_requests.len() == 0
            &&& event.sync_completion_id is None
        },
{
}

/// What a delivery's headers say decides in turn: one without a signature is unauthorized, one
/// whose signature does not read, or is not `sha256=` and sixty-four hexadecimal digits, is a bad
/// request, and one whose signature is not that of its body under the secret is unauthorized. A
/// delivery that is received has the id and the event of its headers and the rest from its body.
pub proof fn law_how_a_delivery_is_received(
    secret: &str,
    raw: RawDelivery,
    signature: Option<String>,
    delivery_id: Option<String>,
    event: Option<String>,
    delivery: Result<VerifiedDelivery, u16>,
)
    requires
        call_ensures(header_text, (&raw.signature,), signature),
        call_ensures(header_text, (&raw.delivery_id,), delivery_id),
        call_ensures(header_text, (&raw.event,), event),
        call_ensures(receive_delivery, (secret, &raw), delivery),
    ensures
        raw.signature is None ==> delivery == Err::<VerifiedDelivery, u16>(401u16),
        raw.signature is Some && signature is None ==> delivery == Err::<VerifiedDelivery, u16>(
            400u16,
        ),
        signature matches Some(text) ==> {
            let formed = text@.len() == 71 && text@.take(7) == "sha256="@ && forall|i: int|
                7 <= i < 71 ==> '0' <= #[trigger] text@[i] <= '9' || 'a' <= text@[i] <= 'f' || 'A'
                    <= text@[i] <= 'F';
            &&& !formed ==> delivery == Err::<VerifiedDelivery, u16>(400u16)
            &&& formed && !signed_with(secret@, text@, raw.body@) ==> delivery == Err::<
                VerifiedDelivery,
                u16,
            >(401u16)
            &&& formed && signed_with(secret@, text@, raw.body@) && (delivery_id is None
                || delivery_id->0@.len() == 0 || event is None || event->0@.len() == 0)
                ==> delivery == Err::<VerifiedDelivery, u16>(400u16)
        },
        delivery matches Ok(received) ==> {
            &&& delivery_id is Some && received.delivery_id@ == delivery_id->0@
            &&& event is Some && received.event@ == event->0@
            &&& received.action is None <==> probed(raw.body@).0 is None
            &&& received.action is Some ==> Some(received.action->0@) == probed(raw.body@).0
            &&& received.installation_id == probed(raw.body@).1
            &&& received.repository is None <==> probed(raw.body@).2 is None
            &&& received.repository matches Some(repository) ==> probed(raw.body@).2 == Some(
                (repository.id, repository.owner@, repository.name@),
            )
        },
{
    if signature is Some {
        let text = signature->0@;
        assert(header_or_empty(raw.signature) == text);
        if text.len() == 71 && text.take(7) == "sha256="@ {
            if is_signature(text) {
                assert forall|i: int| 7 <= i < 71 implies '0' <= #[trigger] text[i] <= '9' || 'a'
                    <= text[i] <= 'f' || 'A' <= text[i] <= 'F' by {
                    assert(is_hex(text[i]));
                }
            }
        }
    }
}

/// A check gives the head it ran on and the numbers of its pull requests, in their order.
pub proof fn law_what_a_check_is_routed_by(check: CheckRouting, routing: (String, Vec<u64>))
    requires
        call_ensures(CheckRouting::into_routing, (check,), routing),
    ensures
        routing.0 == check.head_sha,
        routing.1.len() == check.pull_requests.len(),
        forall|i: int|
            0 <= i < check.pull_requests.len() ==> #[trigger] routing.1[i]
                == check.pull_requests[i].number,
{
    assert forall|i: int| 0 <= i < check.pull_requests.len() implies #[trigger] routing.1[i]
        == check.pull_requests[i].number by {
        assert(routing.1@[i] == numbers_in(check.pull_requests@)[i]);
    }
}

/// What GitHub is answered: a refusal with its own status, an acknowledgement with 204, a payload
/// that is invalid with 400, and what was forwarded with 200 once it is accepted and with 502
/// where it is not.
pub proof fn law_what_github_is_answered(
    status: u16,
    event: WebhookEvent,
    message: String,
    refused: Reply,
    forward: EdgeStep,
    acknowledge: EdgeStep,
    invalid: EdgeStep,
    accepted: Reply,
    lost: Reply,
)
    requires
        call_ensures(refused_delivery, (status,), refused),
        call_ensures(after_routing, (Ok(Disposition::Forward(event)),), forward),
        call_ensures(after_routing, (Ok(Disposition::Acknowledge),), acknowledge),
        call_ensures(after_routing, (Err(message),), invalid),
        call_ensures(forwarded_reply, (true,), accepted),
        call_ensures(forwarded_reply, (false,), lost),
    ensures
        refused.status == status,
        refused.message matches Some(told) && told@ == "webhook delivery was rejected"@,
        forward == EdgeStep::Forward(event),
        acknowledge matches EdgeStep::Answer(reply) && reply.status == 204 && reply.message
            is None,
        invalid matches EdgeStep::Answer(reply) && reply.status == 400 && (reply.message matches
            Some(told) && told@ == "invalid GitHub webhook payload"@),
        accepted.status == 200 && accepted.message is None,
        lost.status == 502,
        lost.message matches Some(told) && told@ == "could not enqueue webhook"@,
{
}

/// The dashboard's own refresh travels as a pull request's event of an action that GitHub does
/// not send, with everything it is dispatched by.
pub proof fn law_what_a_manual_refresh_travels_as(
    installation_id: u64,
    repository_id: u64,
    owner: String,
    repo: String,
    number: u64,
    observed_sha: String,
    completion_id: String,
    event: WebhookEvent,
)
    requires
        call_ensures(
            manual_pr_sync_event,
            (
                installation_id,
                repository_id,
                owner,
                repo,
                number,
                observed_sha,
                completion_id,
            ),
            event,
        ),
    ensures
        event.event@ == "pull_request"@,
        event.action is Some && event.action->0@ == "dashboard_sync"@,
        event.installation_id == Some(installation_id),
        event.repository_id == Some(repository_id),
        event.owner == Some(owner),
        event.repo == Some(repo),
        event.number == Some(number),
        event.sha == Some(observed_sha),
        event.pull_requests.len() == 0,
        event.sync_completion_id == Some(completion_id),
{
}

/// Every payload that can be read of a delivery's kind is routed, and so is one that could not be
/// read.
pub proof fn law_every_payload_of_its_kind_is_routed(delivery: VerifiedDelivery, payload: Payload)
    requires
        delivery.event@ == "pull_request"@ ==> payload is PullRequest || payload is Unreadable,
        delivery.event@ == "check_run"@ || delivery.event@ == "check_suite"@ ==> payload is Check
            || payload is Unreadable,
        delivery.event@ == "status"@ ==> payload is Status || payload is Unreadable,
        delivery.event@ != "pull_request"@ && delivery.event@ != "check_run"@ && delivery.event@
            != "check_suite"@ && delivery.event@ != "status"@ ==> payload is Unread,
    ensures
        call_requires(route_delivery, (&delivery, payload)),
{
    lemma_event_words_are_apart();
}

/// A delivery that is signed and names itself is received where its content type is
/// `application/json`, in letters of either case, and where parameters follow it.
pub proof fn law_a_signed_delivery_of_json_is_received(
    secret: &str,
    raw: RawDelivery,
    signature: String,
    delivery_id: String,
    event: String,
    content_type: String,
    delivery: Result<VerifiedDelivery, u16>,
)
    requires
        call_ensures(header_text, (&raw.signature,), Some(signature)),
        call_ensures(header_text, (&raw.delivery_id,), Some(delivery_id)),
        call_ensures(header_text, (&raw.event,), Some(event)),
        call_ensures(header_text, (&raw.content_type,), Some(content_type)),
        signature@.len() == 71,
        signature@.take(7) == "sha256="@,
        forall|i: int|
            7 <= i < 71 ==> '0' <= #[trigger] signature@[i] <= '9' || 'a' <= signature@[i] <= 'f'
                || 'A' <= signature@[i] <= 'F',
        signed_with(secret@, signature@, raw.body@),
        delivery_id@.len() > 0,
        event@.len() > 0,
        content_type@.len() == 16 || (content_type@.len() > 16 && content_type@[16] == ';'),
        forall|i: int|
            0 <= i < 16 ==> #[trigger] content_type@[i] == "application/json"@[i] || ('A'
                <= content_type@[i] <= 'Z' && content_type@[i] as int + 32
                == "application/json"@[i] as int),
        call_ensures(receive_delivery, (secret, &raw), delivery),
    ensures
        delivery is Ok,
{
    reveal_strlit("application/json");
    let json = "application/json"@;
    let said = content_type@;
    assert(json.len() == 16);
    assert(header_or_empty(raw.signature) == signature@);
    assert(header_or_empty(raw.content_type) == said);
    assert(is_signature(signature@)) by {
        assert forall|i: int| 7 <= i < 71 implies is_hex(#[trigger] signature@[i]) by {}
    }
    assert forall|i: int| 0 <= i < 16 implies #[trigger] said[i] != ';' && lower_char(said[i])
        == json[i] by {
        assert(said[i] == json[i] || ('A' <= said[i] <= 'Z' && said[i] as int + 32
            == json[i] as int));
    }
    lemma_first_index_unique(said, ';', 16);
    let media_type = said.take(16);
    assert(media_type.subrange(0, 16) =~= media_type);
    assert(media_type.take(0) =~= Seq::<char>::empty());
    assert(media_type.skip(16) =~= Seq::<char>::empty());
    assert(media_type.subrange(0, 16).map_values(|c: char| lower_char(c)) =~= json);
    assert(is_json_type(said));
}

/// Nothing is received whose content type does not hold `application/json`, in letters of either
/// case.
pub proof fn law_only_json_is_received(
    secret: &str,
    raw: RawDelivery,
    content_type: Option<String>,
    delivery: VerifiedDelivery,
)
    requires
        call_ensures(header_text, (&raw.content_type,), content_type),
        call_ensures(receive_delivery, (secret, &raw), Ok(delivery)),
    ensures
        content_type matches Some(text) && exists|from: int|
            #![trigger text@.subrange(from, from + 16)]
            0 <= from && from + 16 <= text@.len() && forall|i: int|
                #![trigger text@[i]]
                from <= i < from + 16 ==> text@[i] == "application/json"@[i - from] || ('A'
                    <= text@[i] <= 'Z' && text@[i] as int + 32 == "application/json"@[i
                    - from] as int),
{
    reveal_strlit("application/json");
    let json = "application/json"@;
    let said = header_or_empty(raw.content_type);
    let media_type = said.take(first_index(said, ';'));
    crate::text::lemma_first_index(said, ';');
    let (from, to) = choose|from: int, to: int|
        #![trigger media_type.subrange(from, to)]
        0 <= from <= to <= media_type.len() && is_blank(media_type.take(from)) && is_blank(
            media_type.skip(to),
        ) && media_type.subrange(from, to).map_values(|c: char| lower_char(c)) == json;
    let lowered = media_type.subrange(from, to).map_values(|c: char| lower_char(c));
    assert(lowered.len() == 16);
    let text = content_type->0@;
    assert(text == said);
    assert forall|i: int|
        #![trigger text[i]]
        from <= i < from + 16 implies text[i] == json[i - from] || ('A' <= text[i] <= 'Z'
        && text[i] as int + 32 == json[i - from] as int) by {
        assert(lowered[i - from] == lower_char(text[i]));
    }
    assert(text.subrange(from, from + 16).len() == 16);
}

} // verus!
