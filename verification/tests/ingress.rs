use dependaboard::ingress::{
    delivery_label, installation_lifecycle_action, pull_request_action_requests_sync,
    route_webhook, InstallationLifecycleAction, ObjectCall, WebhookEvent, WebhookRoute,
    DASHBOARD_SYNC_ACTION,
};
use dependaboard::model::{manual_sync, ManualSyncRequest, PrKey, SyncRequest, SyncShaRequest};

fn lifecycle_actions_are_distinct() {
    assert_eq!(
        installation_lifecycle_action(Some("created")),
        Some(InstallationLifecycleAction::SyncNow)
    );
    assert_eq!(
        installation_lifecycle_action(Some("unsuspend")),
        Some(InstallationLifecycleAction::Start)
    );
    assert_eq!(
        installation_lifecycle_action(Some("suspend")),
        Some(InstallationLifecycleAction::Pause)
    );
    assert_eq!(
        installation_lifecycle_action(Some("deleted")),
        Some(InstallationLifecycleAction::Purge)
    );
}

#[test]
fn ingress_installation_webhooks_map_to_distinct_lifecycle_actions() {
    lifecycle_actions_are_distinct();
    assert_eq!(installation_lifecycle_action(Some("new_permissions_accepted")), None);
    assert_eq!(installation_lifecycle_action(None), None);
}

#[test]
fn main_installation_webhooks_map_to_distinct_lifecycle_actions() {
    lifecycle_actions_are_distinct();
}

fn dashboard_action_asks_for_a_sync() {
    assert!(pull_request_action_requests_sync(Some(DASHBOARD_SYNC_ACTION)));
    assert!(!pull_request_action_requests_sync(Some("closed")));
    assert!(!pull_request_action_requests_sync(None));
}

#[test]
fn ingress_dashboard_action_requests_a_pull_request_sync() {
    dashboard_action_asks_for_a_sync();
}

#[test]
fn main_dashboard_action_requests_a_pull_request_sync() {
    dashboard_action_asks_for_a_sync();
}

/// A delivery as the web edge forwards it, for installation 1 and repository 7.
fn delivery(event: &str, action: Option<&str>) -> WebhookEvent {
    WebhookEvent {
        event: event.to_owned(),
        action: action.map(str::to_owned),
        installation_id: Some(1),
        repository_id: Some(7),
        owner: Some("acme".to_owned()),
        repo: Some("api".to_owned()),
        number: Some(9),
        sha: Some("abc123".to_owned()),
        pull_requests: Vec::new(),
        sync_completion_id: None,
    }
}

#[test]
fn deliveries_for_another_installation_are_rejected_naming_both_ids() {
    let mut event = delivery("pull_request", Some("opened"));
    event.installation_id = Some(5);

    assert_eq!(
        route_webhook(1, &event).unwrap_err().text(),
        "webhook installation 5 does not match configured installation 1"
    );
}

#[test]
fn deliveries_without_routing_fields_are_rejected_naming_the_missing_ones() {
    let mut pull = delivery("pull_request", Some("opened"));
    pull.repository_id = None;
    pull.number = None;
    assert_eq!(
        route_webhook(1, &pull).unwrap_err().text(),
        "pull_request webhook is missing repository_id, number"
    );

    let mut check = delivery("check_run", Some("completed"));
    check.sha = None;
    assert_eq!(
        route_webhook(1, &check).unwrap_err().text(),
        "commit webhook is missing sha"
    );

    let mut installation = delivery("installation", Some("suspend"));
    installation.installation_id = None;
    assert_eq!(
        route_webhook(1, &installation).unwrap_err().text(),
        "installation webhook is missing installation_id"
    );
}

#[test]
fn a_dashboard_sync_routes_to_the_pull_request_bypassing_the_debounce() {
    let mut event = delivery("pull_request", Some(DASHBOARD_SYNC_ACTION));
    event.sync_completion_id = Some("completion-1".to_owned());

    assert_eq!(
        route_webhook(1, &event).unwrap(),
        WebhookRoute::SyncPullRequest(SyncRequest {
            repository_id: 7,
            owner: "acme".to_owned(),
            repo: "api".to_owned(),
            number: 9,
            bypass_debounce: true,
            completion_id: Some("completion-1".to_owned()),
        })
    );
    assert!(matches!(
        route_webhook(1, &delivery("pull_request", Some("synchronize"))).unwrap(),
        WebhookRoute::SyncPullRequest(request) if !request.bypass_debounce
    ));
    assert_eq!(
        route_webhook(1, &delivery("pull_request", Some("closed"))).unwrap(),
        WebhookRoute::ClosePullRequest(PrKey::new(7, 9))
    );
}

#[test]
fn commit_deliveries_route_to_the_repository_with_the_pull_requests_github_named() {
    let mut event = delivery("check_run", Some("completed"));
    event.pull_requests = vec![9, 12];

    assert_eq!(
        route_webhook(1, &event).unwrap(),
        WebhookRoute::SyncSha(SyncShaRequest {
            repository_id: 7,
            owner: "acme".to_owned(),
            repo: "api".to_owned(),
            sha: "abc123".to_owned(),
            pull_requests: vec![9, 12],
        })
    );
}

#[test]
fn installation_deliveries_route_to_the_installation_object() {
    assert_eq!(
        route_webhook(1, &delivery("installation", Some("suspend"))).unwrap(),
        WebhookRoute::Installation {
            installation_id: 1,
            action: InstallationLifecycleAction::Pause,
        }
    );
    assert_eq!(
        route_webhook(1, &delivery("installation_repositories", Some("added"))).unwrap(),
        WebhookRoute::Installation {
            installation_id: 1,
            action: InstallationLifecycleAction::SyncNow,
        }
    );
}

#[test]
fn routed_kinds_with_unhandled_actions_are_ignored_not_rejected() {
    for (event, action) in [
        ("pull_request", "assigned"),
        ("check_suite", "requested"),
        ("check_run", "rerequested"),
        ("installation", "new_permissions_accepted"),
    ] {
        assert_eq!(
            route_webhook(1, &delivery(event, Some(action))).unwrap(),
            WebhookRoute::Ignore,
            "{event}.{action}"
        );
    }
}

#[test]
fn a_route_is_sent_to_the_object_that_owns_it() {
    let call = |event: WebhookEvent| route_webhook(1, &event).unwrap().call();
    let to = |service: &str, key: &str, handler: &str| {
        Some(ObjectCall {
            service: service.to_owned(),
            key: key.to_owned(),
            handler: handler.to_owned(),
        })
    };

    assert_eq!(
        call(delivery("pull_request", Some("closed"))),
        to("PullRequest", "7#9", "closed")
    );
    assert_eq!(
        call(delivery("pull_request", Some("opened"))),
        to("PullRequest", "7#9", "sync")
    );
    assert_eq!(call(delivery("status", None)), to("RepoSync", "7", "sync_sha"));
    assert_eq!(
        call(delivery("installation", Some("deleted"))),
        to("InstallationSync", "1", "purge")
    );
    assert_eq!(call(delivery("push", None)), None);
}

#[test]
fn a_delivery_is_labelled_by_its_event_and_action() {
    assert_eq!(
        delivery_label(&delivery("pull_request", Some("opened"))),
        "pull_request.opened"
    );
    assert_eq!(delivery_label(&delivery("status", None)), "status.-");
}

#[test]
fn a_manual_sync_bypasses_the_debounce_and_carries_its_completion_id() {
    assert_eq!(
        manual_sync(ManualSyncRequest {
            repository_id: 7,
            owner: "acme".to_owned(),
            repo: "api".to_owned(),
            number: 9,
            completion_id: "sync-123".to_owned(),
        }),
        SyncRequest {
            repository_id: 7,
            owner: "acme".to_owned(),
            repo: "api".to_owned(),
            number: 9,
            bypass_debounce: true,
            completion_id: Some("sync-123".to_owned()),
        }
    );
}
