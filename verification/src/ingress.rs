//! Where a verified GitHub delivery goes, decided before anything is sent.

use vstd::prelude::*;

use crate::model::{
    clone_text, request_key, PrKey, SyncRequest, SyncShaRequest,
};
use crate::text::{
    all_said, borrow_text, decimal, decimal_text, join_texts, joined, owned_said, said, same_text,
    says,
};

verus! {

/// The action under which the dashboard asks for a pull request to be refreshed.
pub const DASHBOARD_SYNC_ACTION: &'static str = "dashboard_sync";

/// A delivery reduced to what it is routed by.
#[derive(Clone, Debug, PartialEq, Eq)]
pub struct WebhookEvent {
    pub event: String,
    pub action: Option<String>,
    pub installation_id: Option<u64>,
    pub repository_id: Option<u64>,
    pub owner: Option<String>,
    pub repo: Option<String>,
    pub number: Option<u64>,
    pub sha: Option<String>,
    /// The pull requests a check belongs to.
    pub pull_requests: Vec<u64>,
    pub sync_completion_id: Option<String>,
}

#[derive(Clone, Copy, Debug, PartialEq, Eq, Structural)]
pub enum InstallationLifecycleAction {
    Start,
    SyncNow,
    Pause,
    Purge,
}

/// Where a delivery goes.
#[derive(Debug, PartialEq, Eq)]
pub enum WebhookRoute {
    ClosePullRequest(PrKey),
    SyncPullRequest(SyncRequest),
    SyncSha(SyncShaRequest),
    Installation { installation_id: u64, action: InstallationLifecycleAction },
    /// A routed kind whose action has no arm.
    Ignore,
}

/// Why a delivery can never be routed. The message carries what is needed to find the
/// delivery in GitHub.
#[derive(Debug, PartialEq, Eq)]
pub enum WebhookRejection {
    ForeignInstallation { expected: u64, actual: u64 },
    MissingFields { kind: String, fields: Vec<String> },
}

impl WebhookRejection {
    pub open spec fn spec_text(self) -> Seq<char> {
        match self {
            WebhookRejection::ForeignInstallation { expected, actual } => "webhook installation "@
                + decimal(actual as nat) + " does not match configured installation "@ + decimal(
                expected as nat,
            ),
            WebhookRejection::MissingFields { kind, fields } => kind@ + " webhook is missing "@
                + joined(all_said(fields@)),
        }
    }

    pub fn text(&self) -> (text: String)
        ensures
            text@ == self.spec_text(),
    {
        match self {
            WebhookRejection::ForeignInstallation { expected, actual } => {
                let mut text = "webhook installation ".to_owned();
                text.append(decimal_text(*actual).as_str());
                text.append(" does not match configured installation ");
                text.append(decimal_text(*expected).as_str());
                text
            },
            WebhookRejection::MissingFields { kind, fields } => {
                let mut text = kind.clone();
                text.append(" webhook is missing ");
                text.append(join_texts(fields).as_str());
                text
            },
        }
    }
}

/// The names of the fields that are missing, in order.
pub open spec fn missing_names(fields: Seq<(Seq<char>, bool)>) -> Seq<Seq<char>>
    decreases fields.len(),
{
    if fields.len() == 0 {
        Seq::empty()
    } else {
        let earlier = missing_names(fields.drop_last());
        if fields.last().1 {
            earlier.push(fields.last().0)
        } else {
            earlier
        }
    }
}

/// A rejection for want of fields.
pub open spec fn lacks(
    rejection: WebhookRejection,
    kind: Seq<char>,
    fields: Seq<(Seq<char>, bool)>,
) -> bool {
    &&& rejection matches WebhookRejection::MissingFields { kind: said, fields: missing }
    &&& said@ == kind
    &&& all_said(missing@) == missing_names(fields)
}

/// The fields of a table of names and whether each is missing.
pub open spec fn named(fields: Seq<(&'static str, bool)>) -> Seq<(Seq<char>, bool)> {
    fields.map_values(|field: (&'static str, bool)| (field.0@, field.1))
}

fn missing_fields(kind: &str, fields: &Vec<(&'static str, bool)>) -> (rejection: WebhookRejection)
    ensures
        lacks(rejection, kind@, named(fields@)),
{
    let mut missing: Vec<String> = Vec::new();
    let mut i: usize = 0;
    let ghost all = named(fields@);
    while i < fields.len()
        invariant
            i <= fields.len(),
            all == named(fields@),
            all_said(missing@) == missing_names(all.take(i as int)),
        decreases fields.len() - i,
    {
        let ghost next = all.take(i + 1);
        let ghost before = missing@;
        assert(next.drop_last() == all.take(i as int));
        assert(next.last() == (fields[i as int].0@, fields[i as int].1));
        if fields[i].1 {
            missing.push(fields[i].0.to_owned());
            assert(all_said(missing@) =~= all_said(before).push(fields[i as int].0@));
        }
        i += 1;
    }
    assert(all.take(i as int) == all);
    WebhookRejection::MissingFields { kind: kind.to_owned(), fields: missing }
}

/// The pull request actions that ask for a sync.
pub open spec fn asks_for_sync(action: Option<Seq<char>>) -> bool {
    action matches Some(action) && (action == "opened"@ || action == "reopened"@ || action
        == "synchronize"@ || action == "edited"@ || action == "labeled"@ || action == "unlabeled"@
        || action == DASHBOARD_SYNC_ACTION@)
}

pub fn pull_request_action_requests_sync(action: Option<&str>) -> (asks: bool)
    ensures
        asks == asks_for_sync(said(action)),
{
    says(action, "opened") || says(action, "reopened") || says(action, "synchronize") || says(
        action,
        "edited",
    ) || says(action, "labeled") || says(action, "unlabeled") || says(action, DASHBOARD_SYNC_ACTION)
}

/// What an installation's lifecycle event asks of its object.
pub open spec fn lifecycle_action(action: Option<Seq<char>>) -> Option<
    InstallationLifecycleAction,
> {
    if action == Some("created"@) {
        Some(InstallationLifecycleAction::SyncNow)
    } else if action == Some("unsuspend"@) {
        Some(InstallationLifecycleAction::Start)
    } else if action == Some("suspend"@) {
        Some(InstallationLifecycleAction::Pause)
    } else if action == Some("deleted"@) {
        Some(InstallationLifecycleAction::Purge)
    } else {
        None
    }
}

pub fn installation_lifecycle_action(action: Option<&str>) -> (asked: Option<
    InstallationLifecycleAction,
>)
    ensures
        asked == lifecycle_action(said(action)),
{
    if says(action, "created") {
        Some(InstallationLifecycleAction::SyncNow)
    } else if says(action, "unsuspend") {
        Some(InstallationLifecycleAction::Start)
    } else if says(action, "suspend") {
        Some(InstallationLifecycleAction::Pause)
    } else if says(action, "deleted") {
        Some(InstallationLifecycleAction::Purge)
    } else {
        None
    }
}

/// The fields a pull request is addressed by, and whether each is missing.
pub open spec fn pull_request_fields(event: WebhookEvent) -> Seq<(Seq<char>, bool)> {
    seq![
        ("repository_id"@, event.repository_id is None),
        ("owner"@, event.owner is None),
        ("repo"@, event.repo is None),
        ("number"@, event.number is None),
    ]
}

/// The fields a commit is addressed by, and whether each is missing.
pub open spec fn commit_fields(event: WebhookEvent) -> Seq<(Seq<char>, bool)> {
    seq![
        ("repository_id"@, event.repository_id is None),
        ("owner"@, event.owner is None),
        ("repo"@, event.repo is None),
        ("sha"@, event.sha is None),
    ]
}

/// Where a pull request's delivery goes: it closes it, syncs it, or neither.
pub open spec fn pull_request_goes(
    event: WebhookEvent,
    route: Result<WebhookRoute, WebhookRejection>,
) -> bool {
    let action = owned_said(event.action);
    if event.repository_id is None || event.owner is None || event.repo is None
        || event.number is None {
        route matches Err(rejection) && lacks(
            rejection,
            "pull_request"@,
            pull_request_fields(event),
        )
    } else if action == Some("closed"@) {
        route == Ok::<WebhookRoute, WebhookRejection>(
            WebhookRoute::ClosePullRequest(
                PrKey { repository_id: event.repository_id->0, number: event.number->0 },
            ),
        )
    } else if asks_for_sync(action) {
        route == Ok::<WebhookRoute, WebhookRejection>(
            WebhookRoute::SyncPullRequest(
                SyncRequest {
                    repository_id: event.repository_id->0,
                    owner: event.owner->0,
                    repo: event.repo->0,
                    number: event.number->0,
                    bypass_debounce: action == Some(DASHBOARD_SYNC_ACTION@),
                    completion_id: event.sync_completion_id,
                },
            ),
        )
    } else {
        route == Ok::<WebhookRoute, WebhookRejection>(WebhookRoute::Ignore)
    }
}

pub fn route_pull_request(event: &WebhookEvent) -> (route: Result<WebhookRoute, WebhookRejection>)
    ensures
        pull_request_goes(*event, route),
{
    let (repository_id, owner, repo, number) = match (
        event.repository_id,
        &event.owner,
        &event.repo,
        event.number,
    ) {
        (Some(repository_id), Some(owner), Some(repo), Some(number)) => (
            repository_id,
            owner,
            repo,
            number,
        ),
        _ => {
            let fields: Vec<(&'static str, bool)> = vec![
                ("repository_id", event.repository_id.is_none()),
                ("owner", event.owner.is_none()),
                ("repo", event.repo.is_none()),
                ("number", event.number.is_none()),
            ];
            assert(named(fields@) =~= pull_request_fields(*event));
            return Err(missing_fields("pull_request", &fields));
        },
    };
    let action = borrow_text(&event.action);
    if says(action, "closed") {
        return Ok(WebhookRoute::ClosePullRequest(PrKey::new(repository_id, number)));
    }
    if pull_request_action_requests_sync(action) {
        return Ok(
            WebhookRoute::SyncPullRequest(
                SyncRequest {
                    repository_id,
                    owner: owner.clone(),
                    repo: repo.clone(),
                    number,
                    bypass_debounce: says(action, DASHBOARD_SYNC_ACTION),
                    completion_id: clone_text(&event.sync_completion_id),
                },
            ),
        );
    }
    Ok(WebhookRoute::Ignore)
}

/// Where a commit's delivery goes: to its repository, with the pull requests it named.
pub open spec fn commit_goes(
    event: WebhookEvent,
    route: Result<WebhookRoute, WebhookRejection>,
) -> bool {
    if event.repository_id is None || event.owner is None || event.repo is None
        || event.sha is None {
        route matches Err(rejection) && lacks(rejection, "commit"@, commit_fields(event))
    } else {
        &&& route matches Ok(WebhookRoute::SyncSha(request))
        &&& request.repository_id == event.repository_id->0
        &&& request.owner == event.owner->0
        &&& request.repo == event.repo->0
        &&& request.sha == event.sha->0
        &&& request.pull_requests@ == event.pull_requests@
    }
}

fn copy_numbers(numbers: &Vec<u64>) -> (copy: Vec<u64>)
    ensures
        copy@ == numbers@,
{
    let mut copy: Vec<u64> = Vec::new();
    let mut i: usize = 0;
    while i < numbers.len()
        invariant
            i <= numbers.len(),
            copy@ == numbers@.take(i as int),
        decreases numbers.len() - i,
    {
        copy.push(numbers[i]);
        assert(numbers@.take(i + 1) =~= numbers@.take(i as int).push(numbers[i as int]));
        i += 1;
    }
    assert(numbers@.take(i as int) == numbers@);
    copy
}

pub fn route_sha(event: &WebhookEvent) -> (route: Result<WebhookRoute, WebhookRejection>)
    ensures
        commit_goes(*event, route),
{
    match (event.repository_id, &event.owner, &event.repo, &event.sha) {
        (Some(repository_id), Some(owner), Some(repo), Some(sha)) => Ok(
            WebhookRoute::SyncSha(
                SyncShaRequest {
                    repository_id,
                    owner: owner.clone(),
                    repo: repo.clone(),
                    sha: sha.clone(),
                    pull_requests: copy_numbers(&event.pull_requests),
                },
            ),
        ),
        _ => {
            let fields: Vec<(&'static str, bool)> = vec![
                ("repository_id", event.repository_id.is_none()),
                ("owner", event.owner.is_none()),
                ("repo", event.repo.is_none()),
                ("sha", event.sha.is_none()),
            ];
            assert(named(fields@) =~= commit_fields(*event));
            Err(missing_fields("commit", &fields))
        },
    }
}

/// Where an installation's delivery goes: to the installation, if its action has an arm.
pub open spec fn installation_goes(
    event: WebhookEvent,
    route: Result<WebhookRoute, WebhookRejection>,
) -> bool {
    match event.installation_id {
        None => route matches Err(rejection) && lacks(
            rejection,
            "installation"@,
            seq![("installation_id"@, true)],
        ),
        Some(installation_id) => route == Ok::<WebhookRoute, WebhookRejection>(
            match lifecycle_action(owned_said(event.action)) {
                Some(action) => WebhookRoute::Installation { installation_id, action },
                None => WebhookRoute::Ignore,
            },
        ),
    }
}

pub fn route_installation(event: &WebhookEvent) -> (route: Result<WebhookRoute, WebhookRejection>)
    ensures
        installation_goes(*event, route),
{
    match event.installation_id {
        None => {
            let fields: Vec<(&'static str, bool)> = vec![("installation_id", true)];
            assert(named(fields@) =~= seq![("installation_id"@, true)]);
            Err(missing_fields("installation", &fields))
        },
        Some(installation_id) => Ok(
            match installation_lifecycle_action(borrow_text(&event.action)) {
                Some(action) => WebhookRoute::Installation { installation_id, action },
                None => WebhookRoute::Ignore,
            },
        ),
    }
}

/// The check deliveries that are routed: a suite once it is complete, a run when it is
/// created and when it is complete, and every status.
pub open spec fn is_routed_check(event: Seq<char>, action: Option<Seq<char>>) -> bool {
    ||| event == "check_suite"@ && action == Some("completed"@)
    ||| event == "check_run"@ && (action == Some("created"@) || action == Some("completed"@))
    ||| event == "status"@
}

/// The installation a delivery names, where it is another than the one configured.
pub open spec fn foreign_installation(installation_id: u64, event: WebhookEvent) -> Option<u64> {
    match event.installation_id {
        Some(actual) => if actual != installation_id {
            Some(actual)
        } else {
            None
        },
        None => None,
    }
}

/// Where a delivery goes in a deployment bound to an installation.
pub open spec fn goes(
    installation_id: u64,
    event: WebhookEvent,
    route: Result<WebhookRoute, WebhookRejection>,
) -> bool {
    if foreign_installation(installation_id, event) is Some {
        route == Err::<WebhookRoute, WebhookRejection>(
            WebhookRejection::ForeignInstallation {
                expected: installation_id,
                actual: foreign_installation(installation_id, event)->0,
            },
        )
    } else if event.event@ == "pull_request"@ {
        pull_request_goes(event, route)
    } else if is_routed_check(event.event@, owned_said(event.action)) {
        commit_goes(event, route)
    } else if event.event@ == "installation"@ {
        installation_goes(event, route)
    } else if event.event@ == "installation_repositories"@ {
        route == Ok::<WebhookRoute, WebhookRejection>(
            match event.installation_id {
                Some(installation_id) => WebhookRoute::Installation {
                    installation_id,
                    action: InstallationLifecycleAction::SyncNow,
                },
                None => WebhookRoute::Ignore,
            },
        )
    } else {
        route == Ok::<WebhookRoute, WebhookRejection>(WebhookRoute::Ignore)
    }
}

/// Routes a verified delivery to the object that owns it. A delivery of another installation
/// is rejected whatever it is.
pub fn route_webhook(installation_id: u64, event: &WebhookEvent) -> (route: Result<
    WebhookRoute,
    WebhookRejection,
>)
    ensures
        goes(installation_id, *event, route),
{
    if let Some(actual) = event.installation_id {
        if actual != installation_id {
            return Err(
                WebhookRejection::ForeignInstallation { expected: installation_id, actual },
            );
        }
    }
    let kind = event.event.as_str();
    let action = borrow_text(&event.action);
    if same_text(kind, "pull_request") {
        return route_pull_request(event);
    }
    if (same_text(kind, "check_suite") && says(action, "completed")) || (same_text(
        kind,
        "check_run",
    ) && (says(action, "created") || says(action, "completed"))) || same_text(kind, "status") {
        return route_sha(event);
    }
    if same_text(kind, "installation") {
        return route_installation(event);
    }
    if same_text(kind, "installation_repositories") {
        return Ok(
            match event.installation_id {
                Some(installation_id) => WebhookRoute::Installation {
                    installation_id,
                    action: InstallationLifecycleAction::SyncNow,
                },
                None => WebhookRoute::Ignore,
            },
        );
    }
    Ok(WebhookRoute::Ignore)
}

/// A call to be sent to an object: the service, the object's key and the handler.
#[derive(Debug, PartialEq, Eq)]
pub struct ObjectCall {
    pub service: String,
    pub key: String,
    pub handler: String,
}

impl ObjectCall {
    pub open spec fn is_to(
        self,
        service: Seq<char>,
        key: Seq<char>,
        handler: Seq<char>,
    ) -> bool {
        self.service@ == service && self.key@ == key && self.handler@ == handler
    }
}

pub open spec fn lifecycle_handler(action: InstallationLifecycleAction) -> Seq<char> {
    match action {
        InstallationLifecycleAction::Start => "start"@,
        InstallationLifecycleAction::SyncNow => "sync_now"@,
        InstallationLifecycleAction::Pause => "pause"@,
        InstallationLifecycleAction::Purge => "purge"@,
    }
}

impl WebhookRoute {
    /// The service, key and handler a route is sent to.
    pub open spec fn address(self) -> Option<(Seq<char>, Seq<char>, Seq<char>)> {
        match self {
            WebhookRoute::ClosePullRequest(key) => Some(
                ("PullRequest"@, key.spec_text(), "closed"@),
            ),
            WebhookRoute::SyncPullRequest(request) => Some(
                ("PullRequest"@, request.spec_key().spec_text(), "sync"@),
            ),
            WebhookRoute::SyncSha(request) => Some(
                ("RepoSync"@, decimal(request.repository_id as nat), "sync_sha"@),
            ),
            WebhookRoute::Installation { installation_id, action } => Some(
                ("InstallationSync"@, decimal(installation_id as nat), lifecycle_handler(action)),
            ),
            WebhookRoute::Ignore => None,
        }
    }

    /// The one call a route makes, if it makes one; the route itself is what it carries.
    pub fn call(&self) -> (call: Option<ObjectCall>)
        ensures
            match self.address() {
                Some((service, key, handler)) => call matches Some(call) && call.is_to(
                    service,
                    key,
                    handler,
                ),
                None => call is None,
            },
    {
        let (service, key, handler) = match self {
            WebhookRoute::ClosePullRequest(key) => ("PullRequest", key.text(), "closed"),
            WebhookRoute::SyncPullRequest(request) => (
                "PullRequest",
                request_key(request).text(),
                "sync",
            ),
            WebhookRoute::SyncSha(request) => (
                "RepoSync",
                decimal_text(request.repository_id),
                "sync_sha",
            ),
            WebhookRoute::Installation { installation_id, action } => {
                let handler = match action {
                    InstallationLifecycleAction::Start => "start",
                    InstallationLifecycleAction::SyncNow => "sync_now",
                    InstallationLifecycleAction::Pause => "pause",
                    InstallationLifecycleAction::Purge => "purge",
                };
                ("InstallationSync", decimal_text(*installation_id), handler)
            },
            WebhookRoute::Ignore => {
                return None;
            },
        };
        Some(ObjectCall { service: service.to_owned(), key, handler: handler.to_owned() })
    }

    /// The line a routed delivery is logged with: the call it made.
    pub fn outcome(&self) -> (line: String)
        ensures
            line@ == (match self.address() {
                Some((service, key, handler)) => "sent "@ + service + "/"@ + key + "."@ + handler,
                None => "ignored"@,
            }),
    {
        match self.call() {
            Some(call) => {
                let mut line = "sent ".to_owned();
                line.append(call.service.as_str());
                line.append("/");
                line.append(call.key.as_str());
                line.append(".");
                line.append(call.handler.as_str());
                line
            },
            None => "ignored".to_owned(),
        }
    }
}

/// What identifies a delivery in the log: its kind and action.
pub fn delivery_label(event: &WebhookEvent) -> (label: String)
    ensures
        label@ == event.event@ + "."@ + (match event.action {
            Some(action) => action@,
            None => "-"@,
        }),
{
    let mut label = event.event.clone();
    label.append(".");
    match &event.action {
        Some(action) => label.append(action.as_str()),
        None => label.append("-"),
    }
    label
}

/// Nothing a deployment routes is another installation's.
pub proof fn law_another_installations_delivery_is_never_routed(
    installation_id: u64,
    event: WebhookEvent,
    route: Result<WebhookRoute, WebhookRejection>,
)
    requires
        goes(installation_id, event, route),
        event.installation_id matches Some(actual) && actual != installation_id,
    ensures
        route is Err,
{
}

/// A delivery that names the deployment's installation reaches no other installation's
/// object.
pub proof fn law_an_installation_route_is_the_configured_one(
    installation_id: u64,
    event: WebhookEvent,
    route: WebhookRoute,
)
    requires
        goes(installation_id, event, Ok(route)),
        route is Installation,
    ensures
        route->installation_id == installation_id,
{
}

/// The words deliveries are told apart by are all different.
proof fn lemma_words_are_apart()
    ensures
        "opened"@ != "closed"@,
        "reopened"@ != "closed"@,
        "synchronize"@ != "closed"@,
        "edited"@ != "closed"@,
        "labeled"@ != "closed"@,
        "unlabeled"@ != "closed"@,
        "opened"@ != "dashboard_sync"@,
        "reopened"@ != "dashboard_sync"@,
        "synchronize"@ != "dashboard_sync"@,
        "edited"@ != "dashboard_sync"@,
        "labeled"@ != "dashboard_sync"@,
        "unlabeled"@ != "dashboard_sync"@,
        "dashboard_sync"@ != "closed"@,
        "created"@ != "unsuspend"@,
        "created"@ != "suspend"@,
        "created"@ != "deleted"@,
        "unsuspend"@ != "suspend"@,
        "unsuspend"@ != "deleted"@,
        "suspend"@ != "deleted"@,
        "created"@ != "completed"@,
        "check_suite"@ != "pull_request"@,
        "check_run"@ != "pull_request"@,
        "status"@ != "pull_request"@,
        "installation"@ != "pull_request"@,
        "installation_repositories"@ != "pull_request"@,
        "check_suite"@ != "check_run"@,
        "check_suite"@ != "status"@,
        "check_run"@ != "status"@,
        "installation"@ != "check_suite"@,
        "installation"@ != "check_run"@,
        "installation"@ != "status"@,
        "installation_repositories"@ != "check_suite"@,
        "installation_repositories"@ != "check_run"@,
        "installation_repositories"@ != "status"@,
        "installation_repositories"@ != "installation"@,
{
    reveal_strlit("opened");
    reveal_strlit("reopened");
    reveal_strlit("synchronize");
    reveal_strlit("edited");
    reveal_strlit("labeled");
    reveal_strlit("unlabeled");
    reveal_strlit("dashboard_sync");
    reveal_strlit("closed");
    reveal_strlit("created");
    reveal_strlit("unsuspend");
    reveal_strlit("suspend");
    reveal_strlit("deleted");
    reveal_strlit("completed");
    reveal_strlit("check_suite");
    reveal_strlit("check_run");
    reveal_strlit("status");
    reveal_strlit("pull_request");
    reveal_strlit("installation");
    reveal_strlit("installation_repositories");
    assert("opened"@[0] == 'o' && "closed"@[0] == 'c' && "edited"@[0] == 'e');
    assert("suspend"@[0] == 's' && "created"@[0] == 'c' && "deleted"@[0] == 'd');
    assert("installation"@[0] == 'i' && "pull_request"@[0] == 'p');
    assert("opened"@.len() == 6 && "closed"@.len() == 6 && "edited"@.len() == 6);
    assert("reopened"@.len() == 8 && "synchronize"@.len() == 11 && "labeled"@.len() == 7);
    assert("unlabeled"@.len() == 9 && "dashboard_sync"@.len() == 14);
    assert("created"@.len() == 7 && "unsuspend"@.len() == 9 && "completed"@.len() == 9);
    assert("suspend"@.len() == 7 && "deleted"@.len() == 7);
    assert("check_suite"@.len() == 11 && "check_run"@.len() == 9 && "status"@.len() == 6);
    assert("installation"@.len() == 12 && "installation_repositories"@.len() == 25);
}

/// A pull request of the configured installation that was opened or reopened, or whose head,
/// text or labels changed, is synced, and waits its turn in the debounce like any event.
pub proof fn law_a_changed_pull_request_is_synced(
    installation_id: u64,
    event: WebhookEvent,
    repository_id: u64,
    owner: String,
    repo: String,
    number: u64,
    action: String,
    route: Result<WebhookRoute, WebhookRejection>,
)
    requires
        event.event@ == "pull_request"@,
        event.installation_id is None || event.installation_id == Some(installation_id),
        event.repository_id == Some(repository_id),
        event.owner == Some(owner),
        event.repo == Some(repo),
        event.number == Some(number),
        event.action == Some(action),
        action@ == "opened"@ || action@ == "reopened"@ || action@ == "synchronize"@ || action@
            == "edited"@ || action@ == "labeled"@ || action@ == "unlabeled"@,
        call_ensures(route_webhook, (installation_id, &event), route),
    ensures
        route == Ok::<WebhookRoute, WebhookRejection>(
            WebhookRoute::SyncPullRequest(
                SyncRequest {
                    repository_id,
                    owner,
                    repo,
                    number,
                    bypass_debounce: false,
                    completion_id: event.sync_completion_id,
                },
            ),
        ),
{
    lemma_words_are_apart();
}

/// A refresh that somebody asked for on the dashboard is a sync that does not wait in the
/// debounce.
pub proof fn law_a_dashboard_refresh_does_not_wait(
    installation_id: u64,
    event: WebhookEvent,
    repository_id: u64,
    owner: String,
    repo: String,
    number: u64,
    action: String,
    route: Result<WebhookRoute, WebhookRejection>,
)
    requires
        event.event@ == "pull_request"@,
        event.installation_id is None || event.installation_id == Some(installation_id),
        event.repository_id == Some(repository_id),
        event.owner == Some(owner),
        event.repo == Some(repo),
        event.number == Some(number),
        event.action == Some(action),
        action@ == "dashboard_sync"@,
        call_ensures(route_webhook, (installation_id, &event), route),
    ensures
        route == Ok::<WebhookRoute, WebhookRejection>(
            WebhookRoute::SyncPullRequest(
                SyncRequest {
                    repository_id,
                    owner,
                    repo,
                    number,
                    bypass_debounce: true,
                    completion_id: event.sync_completion_id,
                },
            ),
        ),
{
    lemma_words_are_apart();
}

/// A pull request that was closed is closed, whether or not it was merged; and what is done to
/// a pull request in any way that has no arm is ignored.
pub proof fn law_a_closed_pull_request_is_closed_and_other_actions_are_ignored(
    installation_id: u64,
    event: WebhookEvent,
    repository_id: u64,
    number: u64,
    route: Result<WebhookRoute, WebhookRejection>,
)
    requires
        event.event@ == "pull_request"@,
        event.installation_id is None || event.installation_id == Some(installation_id),
        event.repository_id == Some(repository_id),
        event.owner is Some,
        event.repo is Some,
        event.number == Some(number),
        call_ensures(route_webhook, (installation_id, &event), route),
    ensures
        (event.action matches Some(action) && action@ == "closed"@) ==> route == Ok::<
            WebhookRoute,
            WebhookRejection,
        >(WebhookRoute::ClosePullRequest(PrKey { repository_id, number })),
        (event.action matches Some(action) ==> action@ != "closed"@ && action@ != "opened"@
            && action@ != "reopened"@ && action@ != "synchronize"@ && action@ != "edited"@
            && action@ != "labeled"@ && action@ != "unlabeled"@ && action@ != "dashboard_sync"@)
            ==> route == Ok::<WebhookRoute, WebhookRejection>(WebhookRoute::Ignore),
{
    lemma_words_are_apart();
}

/// A check suite that completed, a check run that was created or completed, and every status is
/// taken to its repository with the commit and the pull requests it names; what else happens
/// to a check is ignored.
pub proof fn law_a_check_is_taken_to_its_repository(
    installation_id: u64,
    event: WebhookEvent,
    repository_id: u64,
    owner: String,
    repo: String,
    sha: String,
    route: Result<WebhookRoute, WebhookRejection>,
)
    requires
        event.installation_id is None || event.installation_id == Some(installation_id),
        event.repository_id == Some(repository_id),
        event.owner == Some(owner),
        event.repo == Some(repo),
        event.sha == Some(sha),
        event.event@ == "check_suite"@ || event.event@ == "check_run"@ || event.event@
            == "status"@,
        call_ensures(route_webhook, (installation_id, &event), route),
    ensures
        if event.event@ == "status"@ || (event.action matches Some(action) && action@
            == "completed"@) || (event.event@ == "check_run"@ && (event.action matches Some(action)
            && action@ == "created"@)) {
            &&& route matches Ok(WebhookRoute::SyncSha(request))
            &&& request.repository_id == repository_id
            &&& request.owner == owner
            &&& request.repo == repo
            &&& request.sha == sha
            &&& request.pull_requests@ == event.pull_requests@
        } else {
            route == Ok::<WebhookRoute, WebhookRejection>(WebhookRoute::Ignore)
        },
{
    lemma_words_are_apart();
}

/// An installation that was created is swept, one that is no longer suspended is started, one
/// that is suspended is paused, and one that was deleted is purged; when its repositories
/// change it is swept. Nothing else is asked of it.
pub proof fn law_an_installations_life_is_followed(
    installation_id: u64,
    event: WebhookEvent,
    route: Result<WebhookRoute, WebhookRejection>,
)
    requires
        event.installation_id == Some(installation_id),
        event.event@ == "installation"@ || event.event@ == "installation_repositories"@,
        call_ensures(route_webhook, (installation_id, &event), route),
    ensures
        ({
            let asked = |action: InstallationLifecycleAction|
                route == Ok::<WebhookRoute, WebhookRejection>(
                    WebhookRoute::Installation { installation_id, action },
                );
            if event.event@ == "installation_repositories"@ {
                asked(InstallationLifecycleAction::SyncNow)
            } else {
                match event.action {
                    Some(action) => if action@ == "created"@ {
                        asked(InstallationLifecycleAction::SyncNow)
                    } else if action@ == "unsuspend"@ {
                        asked(InstallationLifecycleAction::Start)
                    } else if action@ == "suspend"@ {
                        asked(InstallationLifecycleAction::Pause)
                    } else if action@ == "deleted"@ {
                        asked(InstallationLifecycleAction::Purge)
                    } else {
                        route == Ok::<WebhookRoute, WebhookRejection>(WebhookRoute::Ignore)
                    },
                    None => route == Ok::<WebhookRoute, WebhookRejection>(WebhookRoute::Ignore),
                }
            }
        }),
{
    lemma_words_are_apart();
}

/// A delivery of another installation is rejected, naming both, and a delivery of any kind that
/// has no arm is ignored.
pub proof fn law_what_is_foreign_is_rejected_and_what_is_unknown_is_ignored(
    installation_id: u64,
    event: WebhookEvent,
    route: Result<WebhookRoute, WebhookRejection>,
)
    requires
        call_ensures(route_webhook, (installation_id, &event), route),
    ensures
        (event.installation_id matches Some(actual) && actual != installation_id) ==> route == Err::<
            WebhookRoute,
            WebhookRejection,
        >(
            WebhookRejection::ForeignInstallation {
                expected: installation_id,
                actual: event.installation_id->0,
            },
        ),
        (event.installation_id is None || event.installation_id == Some(installation_id))
            && event.event@ != "pull_request"@ && event.event@ != "check_suite"@ && event.event@
            != "check_run"@ && event.event@ != "status"@ && event.event@ != "installation"@
            && event.event@ != "installation_repositories"@ ==> route == Ok::<
            WebhookRoute,
            WebhookRejection,
        >(WebhookRoute::Ignore),
        event.event@ == "installation"@ && event.installation_id is None ==> (route matches Err(
            WebhookRejection::MissingFields { kind, fields },
        ) && kind@ == "installation"@ && fields.len() == 1 && fields[0]@ == "installation_id"@),
{
    lemma_words_are_apart();
    if event.event@ == "installation"@ && event.installation_id is None {
        let fields = seq![("installation_id"@, true)];
        reveal_with_fuel(missing_names, 2);
        assert(fields.drop_last() =~= Seq::<(Seq<char>, bool)>::empty());
        let missing = route->Err_0->fields;
        assert(all_said(missing@) =~= seq!["installation_id"@]);
        assert(all_said(missing@)[0] == missing@[0]@);
    }
}

/// Four fields' missing names are the names of those that are missing, in their order.
proof fn lemma_four_missing(
    first: (Seq<char>, bool),
    second: (Seq<char>, bool),
    third: (Seq<char>, bool),
    fourth: (Seq<char>, bool),
)
    ensures
        ({
            let one = |field: (Seq<char>, bool)|
                if field.1 {
                    seq![field.0]
                } else {
                    Seq::empty()
                };
            missing_names(seq![first, second, third, fourth]) == one(first) + one(second) + one(
                third,
            ) + one(fourth)
        }),
{
    let all = seq![first, second, third, fourth];
    let three = all.drop_last();
    let two = three.drop_last();
    let single = two.drop_last();
    assert(three =~= seq![first, second, third]);
    assert(two =~= seq![first, second]);
    assert(single =~= seq![first]);
    assert(single.drop_last() =~= Seq::<(Seq<char>, bool)>::empty());
    reveal_with_fuel(missing_names, 5);
    let one = |field: (Seq<char>, bool)|
        if field.1 {
            seq![field.0]
        } else {
            Seq::empty()
        };
    assert(missing_names(single) =~= one(first));
    assert(missing_names(two) =~= one(first) + one(second));
    assert(missing_names(three) =~= one(first) + one(second) + one(third));
    assert(missing_names(all) =~= one(first) + one(second) + one(third) + one(fourth));
}

/// A delivery that lacks what it is addressed by is rejected, naming exactly what it lacks: for
/// a pull request its repository, owner, name and number, for a commit its repository, owner,
/// name and commit.
pub proof fn law_a_rejection_names_exactly_what_is_missing(
    event: WebhookEvent,
    pull_request: Result<WebhookRoute, WebhookRejection>,
    commit: Result<WebhookRoute, WebhookRejection>,
)
    requires
        call_ensures(route_pull_request, (&event,), pull_request),
        call_ensures(route_sha, (&event,), commit),
    ensures
        ({
            let one = |name: Seq<char>, missing: bool|
                if missing {
                    seq![name]
                } else {
                    Seq::empty()
                };
            let repository = one("repository_id"@, event.repository_id is None) + one(
                "owner"@,
                event.owner is None,
            ) + one("repo"@, event.repo is None);
            &&& (event.repository_id is None || event.owner is None || event.repo is None
                || event.number is None) ==> (pull_request matches Err(
                WebhookRejection::MissingFields { kind, fields },
            ) && kind@ == "pull_request"@ && fields@.map_values(|field: String| field@)
                == repository + one("number"@, event.number is None))
            &&& (event.repository_id is None || event.owner is None || event.repo is None
                || event.sha is None) ==> (commit matches Err(
                WebhookRejection::MissingFields { kind, fields },
            ) && kind@ == "commit"@ && fields@.map_values(|field: String| field@) == repository
                + one("sha"@, event.sha is None))
        }),
{
    lemma_four_missing(
        ("repository_id"@, event.repository_id is None),
        ("owner"@, event.owner is None),
        ("repo"@, event.repo is None),
        ("number"@, event.number is None),
    );
    lemma_four_missing(
        ("repository_id"@, event.repository_id is None),
        ("owner"@, event.owner is None),
        ("repo"@, event.repo is None),
        ("sha"@, event.sha is None),
    );
}

/// What a rejection says: which installation it was for and which there is, or what is missing
/// from what kind of delivery.
pub proof fn law_what_a_webhook_rejection_says(
    expected: u64,
    actual: u64,
    kind: String,
    fields: Vec<String>,
    of_foreign: String,
    of_missing: String,
)
    requires
        call_ensures(
            WebhookRejection::text,
            (&WebhookRejection::ForeignInstallation { expected, actual },),
            of_foreign,
        ),
        call_ensures(
            WebhookRejection::text,
            (&WebhookRejection::MissingFields { kind, fields },),
            of_missing,
        ),
    ensures
        of_foreign@ == "webhook installation "@ + decimal(actual as nat)
            + " does not match configured installation "@ + decimal(expected as nat),
        of_missing@ == kind@ + " webhook is missing "@ + joined(
            fields@.map_values(|field: String| field@),
        ),
{
    assert(all_said(fields@) =~= fields@.map_values(|field: String| field@));
}

/// Each route is one call, to the object of what it is about: a pull request's to be closed or
/// synced, a repository's, or an installation's. What is ignored calls nothing. The log line
/// names the call.
pub proof fn law_a_route_calls_the_object_it_is_about(
    route: WebhookRoute,
    call: Option<ObjectCall>,
    line: String,
)
    requires
        call_ensures(WebhookRoute::call, (&route,), call),
        call_ensures(WebhookRoute::outcome, (&route,), line),
    ensures
        match route {
            WebhookRoute::ClosePullRequest(key) => call matches Some(call) && call.service@
                == "PullRequest"@ && call.handler@ == "closed"@ && call.key@ == decimal(
                key.repository_id as nat,
            ) + "#"@ + decimal(key.number as nat),
            WebhookRoute::SyncPullRequest(request) => call matches Some(call) && call.service@
                == "PullRequest"@ && call.handler@ == "sync"@ && call.key@ == decimal(
                request.repository_id as nat,
            ) + "#"@ + decimal(request.number as nat),
            WebhookRoute::SyncSha(request) => call matches Some(call) && call.service@
                == "RepoSync"@ && call.handler@ == "sync_sha"@ && call.key@ == decimal(
                request.repository_id as nat,
            ),
            WebhookRoute::Installation { installation_id, action } => call matches Some(call)
                && call.service@ == "InstallationSync"@ && call.key@ == decimal(
                installation_id as nat,
            ) && call.handler@ == (match action {
                InstallationLifecycleAction::Start => "start"@,
                InstallationLifecycleAction::SyncNow => "sync_now"@,
                InstallationLifecycleAction::Pause => "pause"@,
                InstallationLifecycleAction::Purge => "purge"@,
            }),
            WebhookRoute::Ignore => call is None,
        },
        match call {
            Some(call) => line@ == "sent "@ + call.service@ + "/"@ + call.key@ + "."@
                + call.handler@,
            None => line@ == "ignored"@,
        },
{
}

/// A delivery is labelled with its kind and its action, or a dash where it has none.
pub proof fn law_a_delivery_is_labelled_with_its_kind_and_action(
    event: WebhookEvent,
    label: String,
)
    requires
        call_ensures(delivery_label, (&event,), label),
    ensures
        event.action matches Some(action) ==> label@ == event.event@ + "."@ + action@,
        event.action is None ==> label@ == event.event@ + "."@ + "-"@,
{
}

/// The actions of a pull request that ask for a sync: those that open it or change what is shown
/// of it, and the dashboard's own.
pub proof fn law_which_actions_ask_for_a_sync(action: &str, asks: bool, of_none: bool)
    requires
        call_ensures(pull_request_action_requests_sync, (Some(action),), asks),
        call_ensures(pull_request_action_requests_sync, (None::<&str>,), of_none),
    ensures
        asks <==> action@ == "opened"@ || action@ == "reopened"@ || action@ == "synchronize"@
            || action@ == "edited"@ || action@ == "labeled"@ || action@ == "unlabeled"@ || action@
            == "dashboard_sync"@,
        !of_none,
{
}

/// What an installation's own actions ask of its object: one that is created is swept, one that
/// is resumed starts its chain, one that is suspended pauses it, one that is deleted is purged,
/// and no other asks for anything.
pub proof fn law_what_an_installations_action_asks_for(
    action: &str,
    asked: Option<InstallationLifecycleAction>,
    of_none: Option<InstallationLifecycleAction>,
)
    requires
        call_ensures(installation_lifecycle_action, (Some(action),), asked),
        call_ensures(installation_lifecycle_action, (None::<&str>,), of_none),
    ensures
        action@ == "created"@ ==> asked == Some(InstallationLifecycleAction::SyncNow),
        action@ == "unsuspend"@ ==> asked == Some(InstallationLifecycleAction::Start),
        action@ == "suspend"@ ==> asked == Some(InstallationLifecycleAction::Pause),
        action@ == "deleted"@ ==> asked == Some(InstallationLifecycleAction::Purge),
        action@ != "created"@ && action@ != "unsuspend"@ && action@ != "suspend"@ && action@
            != "deleted"@ ==> asked is None,
        of_none is None,
{
    reveal_strlit("created");
    reveal_strlit("unsuspend");
    reveal_strlit("suspend");
    reveal_strlit("deleted");
    assert("created"@.len() == 7 && "unsuspend"@.len() == 9 && "suspend"@.len() == 7
        && "deleted"@.len() == 7);
    assert("created"@[0] == 'c' && "suspend"@[0] == 's' && "deleted"@[0] == 'd');
}

} // verus!
