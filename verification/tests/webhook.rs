use dependaboard::ingress::{route_webhook, WebhookEvent, WebhookRoute, DASHBOARD_SYNC_ACTION};
use dependaboard::restate::dispatch_webhook;
use dependaboard::webhook::{
    after_routing, forwarded_reply, manual_pr_sync_event, payload_kind, receive_delivery,
    refused_delivery, route_delivery, CheckPullRequest, CheckRouting, Disposition, EdgeStep,
    Payload, PayloadKind, PullRequestRouting, RawDelivery, Reply, RepositoryRef, VerifiedDelivery,
};
use serde_json::Value;

const DELIVERY_ID: &str = "72d3162e-cc78-11e3-81ab-4c9367dc0958";

fn header(value: &str) -> Option<Vec<u8>> {
    Some(value.as_bytes().to_vec())
}

fn raw(signature: &str, event: &str, body: &[u8]) -> RawDelivery {
    RawDelivery {
        signature: header(signature),
        delivery_id: header(DELIVERY_ID),
        event: header(event),
        content_type: header("application/json"),
        body: body.to_vec(),
    }
}

/// Reads a body as its kind has it, the way the edge does.
fn payload(kind: PayloadKind, body: &Value) -> Payload {
    let text = |value: &Value| value.as_str().map(str::to_owned);
    let check = |name: &str| -> Option<Payload> {
        let check = body.get(name)?;
        let mut pull_requests = Vec::new();
        for pull in check.get("pull_requests").and_then(Value::as_array).into_iter().flatten() {
            pull_requests.push(CheckPullRequest { number: pull.get("number")?.as_u64()? });
        }
        Some(Payload::Check(CheckRouting {
            head_sha: text(check.get("head_sha")?)?,
            pull_requests,
        }))
    };
    let read = match kind {
        PayloadKind::Unread => Some(Payload::Unread),
        PayloadKind::PullRequest => body.get("pull_request").and_then(|pull| {
            Some(Payload::PullRequest(PullRequestRouting {
                number: pull.get("number")?.as_u64()?,
                head_sha: text(pull.get("head")?.get("sha")?)?,
            }))
        }),
        PayloadKind::CheckRun => check("check_run"),
        PayloadKind::CheckSuite => check("check_suite"),
        PayloadKind::Status => body.get("sha").and_then(text).map(|sha| Payload::Status { sha }),
    };
    read.unwrap_or_else(|| Payload::Unreadable("missing field".to_owned()))
}

fn json(text: &str) -> Value {
    serde_json::from_str(text).unwrap()
}

fn delivery(event: &str, action: Option<&str>, repository: bool) -> VerifiedDelivery {
    VerifiedDelivery {
        delivery_id: DELIVERY_ID.to_owned(),
        event: event.to_owned(),
        action: action.map(str::to_owned),
        installation_id: Some(42),
        repository: repository.then(|| RepositoryRef {
            id: 7,
            owner: "acme".to_owned(),
            name: "api".to_owned(),
        }),
    }
}

fn route(delivery: &VerifiedDelivery, body: &str) -> Result<Disposition, String> {
    route_delivery(delivery, payload(payload_kind(&delivery.event), &json(body)))
}

fn routed(event: &str, action: Option<&str>, repository: bool, body: &str) -> WebhookEvent {
    match route(&delivery(event, action, repository), body).unwrap() {
        Disposition::Forward(event) => event,
        Disposition::Acknowledge => panic!("{event} should be forwarded"),
    }
}

#[test]
fn webhook_deliveries_are_authenticated_before_they_are_routed() {
    // openssl dgst -sha256 -hmac secret, over exactly the bytes below.
    const BODY: &[u8] = br#"{"action":"opened","installation":{"id":42}}"#;
    const SIGNATURE: &str =
        "sha256=015a17fc63d8f4eb2ffd3f3f70444a66af82856c318e854607c77d1747a3d3c9";

    let delivery = receive_delivery("secret", &raw(SIGNATURE, "installation", BODY))
        .expect("a correctly signed delivery is accepted");
    assert_eq!(delivery.event, "installation");
    assert_eq!(delivery.installation_id, Some(42));
    let Ok(Disposition::Forward(event)) = route_delivery(&delivery, Payload::Unread) else {
        panic!("a verified installation delivery is forwarded");
    };
    assert_eq!(event.installation_id, Some(42));

    assert_eq!(
        receive_delivery("wrong", &raw(SIGNATURE, "installation", BODY)),
        Err(401),
        "a delivery signed with another secret is refused"
    );
    assert_eq!(
        receive_delivery("secret", &raw("sha1=abcd", "installation", BODY)),
        Err(400),
        "a signature that is not sha256 hexadecimal is refused"
    );
}

#[test]
fn a_delivery_is_refused_for_each_thing_it_lacks() {
    const BODY: &[u8] = br#"{"action":"opened","installation":{"id":42}}"#;
    const SIGNATURE: &str =
        "sha256=015a17fc63d8f4eb2ffd3f3f70444a66af82856c318e854607c77d1747a3d3c9";
    let signed = || raw(SIGNATURE, "installation", BODY);
    let status = |raw: RawDelivery| receive_delivery("secret", &raw).unwrap_err();

    assert_eq!(status(RawDelivery { signature: None, ..signed() }), 401);
    assert_eq!(status(RawDelivery { signature: Some(vec![0xff]), ..signed() }), 400);
    assert_eq!(status(RawDelivery { delivery_id: None, ..signed() }), 400);
    assert_eq!(status(RawDelivery { delivery_id: header(""), ..signed() }), 400);
    assert_eq!(status(RawDelivery { event: None, ..signed() }), 400);
    assert_eq!(status(RawDelivery { event: Some(vec![0xc3, 0xa9]), ..signed() }), 400);
    assert_eq!(status(RawDelivery { content_type: None, ..signed() }), 400);
    assert_eq!(status(RawDelivery { content_type: header("text/plain"), ..signed() }), 400);
    assert_eq!(status(RawDelivery { body: b"{}".to_vec(), ..signed() }), 401);
    assert_eq!(
        status(RawDelivery { signature: header(&SIGNATURE.to_uppercase()), ..signed() }),
        400,
        "the algorithm is named in lower case"
    );
    assert_eq!(
        status(RawDelivery { signature: header(""), content_type: None, ..signed() }),
        400
    );
    assert_eq!(
        status(RawDelivery { content_type: header("application/json5"), ..signed() }),
        400
    );
    for content_type in ["application/json; charset=utf-8", " Application/JSON\t", "APPLICATION/JSON;"] {
        let delivery = RawDelivery { content_type: header(content_type), ..signed() };
        assert!(receive_delivery("secret", &delivery).is_ok(), "{content_type}");
    }
    assert_eq!(
        refused_delivery(401),
        Reply { status: 401, message: Some("webhook delivery was rejected") }
    );
}

#[test]
fn webhook_forwards_carry_the_delivery_id_as_the_idempotency_key() {
    // openssl dgst -sha256 -hmac secret, over exactly the bytes below.
    const BODY: &[u8] = br#"{"action":"synchronize","number":9,"pull_request":{"number":9,"head":{"sha":"abc123"}},"repository":{"id":7,"name":"api","full_name":"acme/api","owner":{"login":"acme"}},"installation":{"id":42}}"#;
    const SIGNATURE: &str =
        "sha256=842b71b366f883f03823c869358f15ebccdafeb019fe56b98e5b68824c83617e";

    for _ in 0..2 {
        let delivery = receive_delivery("secret", &raw(SIGNATURE, "pull_request", BODY)).unwrap();
        let body = serde_json::from_slice(BODY).unwrap();
        let disposition =
            route_delivery(&delivery, payload(payload_kind(&delivery.event), &body));
        let EdgeStep::Forward(event) = after_routing(disposition) else {
            panic!("a pull request's delivery is forwarded");
        };
        let invocation = dispatch_webhook(&delivery.delivery_id);

        assert_eq!(
            invocation.url("http://127.0.0.1:8080"),
            "http://127.0.0.1:8080/restate/send/WebhookIngress/dispatch"
        );
        assert_eq!(invocation.idempotency_key.as_deref(), Some(DELIVERY_ID));
        assert_eq!(event.event, "pull_request");
        assert_eq!(event.action.as_deref(), Some("synchronize"));
        assert_eq!(event.installation_id, Some(42));
        assert_eq!(event.repository_id, Some(7));
        assert_eq!(event.owner.as_deref(), Some("acme"));
        assert_eq!(event.repo.as_deref(), Some("api"));
        assert_eq!(event.number, Some(9));
        assert_eq!(event.sha.as_deref(), Some("abc123"));
        assert_eq!(forwarded_reply(true).status, 200);
    }
}

#[test]
fn verified_envelopes_are_reduced_to_routing_fields() {
    let installation = routed(
        "installation",
        Some("created"),
        false,
        r#"{ "action": "created", "repositories": [] }"#,
    );
    assert_eq!(installation.action.as_deref(), Some("created"));
    assert_eq!(installation.installation_id, Some(42));
    assert_eq!(installation.repository_id, None);

    let repositories = routed(
        "installation_repositories",
        Some("removed"),
        true,
        r#"{
            "action": "removed",
            "repositories_added": [],
            "repositories_removed": [],
            "repository_selection": "all"
        }"#,
    );
    assert_eq!(repositories.action.as_deref(), Some("removed"));

    let pull_request = routed(
        "pull_request",
        Some("synchronize"),
        true,
        r#"{
            "action": "synchronize",
            "number": 9,
            "pull_request": {
                "number": 9,
                "head": { "ref": "dependabot/update", "sha": "abc123" },
                "base": { "ref": "main", "sha": "base123" }
            }
        }"#,
    );
    assert_eq!(pull_request.number, Some(9));
    assert_eq!(pull_request.sha.as_deref(), Some("abc123"));

    for (name, body) in [
        (
            "check_run",
            r#"{ "action": "completed", "check_run": {
                "head_sha": "abc123", "pull_requests": [{ "number": 9 }, { "number": 10 }] } }"#,
        ),
        (
            "check_suite",
            r#"{ "action": "completed", "check_suite": {
                "head_sha": "abc123", "pull_requests": [{ "number": 9 }, { "number": 10 }] } }"#,
        ),
    ] {
        let event = routed(name, Some("completed"), true, body);
        assert_eq!(event.action.as_deref(), Some("completed"));
        assert_eq!(event.sha.as_deref(), Some("abc123"));
        assert_eq!(event.pull_requests, vec![9, 10]);
    }

    let status = routed(
        "status",
        None,
        true,
        r#"{
            "context": "ci/test",
            "id": 1,
            "name": "ci/test",
            "sha": "abc123",
            "state": "success"
        }"#,
    );
    assert_eq!(status.sha.as_deref(), Some("abc123"));
    assert_eq!(status.action, None);

    for event in [repositories, pull_request, status] {
        assert_eq!(event.installation_id, Some(42));
        assert_eq!(event.repository_id, Some(7));
        assert_eq!(event.owner.as_deref(), Some("acme"));
        assert_eq!(event.repo.as_deref(), Some("api"));
    }
}

#[test]
fn envelope_missing_routing_fields_is_rejected() {
    assert!(route(
        &delivery("pull_request", Some("opened"), true),
        r#"{ "action": "opened" }"#
    )
    .is_err());

    let mut anonymous = delivery("installation", Some("created"), false);
    anonymous.installation_id = None;
    assert_eq!(
        route(&anonymous, r#"{ "action": "created" }"#),
        Err("GitHub installation webhook is missing an installation id".to_owned())
    );

    assert!(route(
        &delivery("check_run", Some("completed"), true),
        r#"{ "action": "completed",
             "check_run": { "head_sha": "abc123", "pull_requests": [{}] } }"#
    )
    .is_err());
    assert!(route(
        &delivery("check_run", Some("completed"), true),
        r#"{ "action": "completed", "check_run": { "pull_requests": [] } }"#
    )
    .is_err());

    assert_eq!(
        route(
            &delivery("pull_request", Some("opened"), false),
            r#"{ "action": "opened", "number": 9,
                 "pull_request": { "number": 9, "head": { "sha": "abc123" } } }"#
        ),
        Err("GitHub repository webhook is missing routing fields".to_owned())
    );
}

#[test]
fn kinds_the_dispatcher_does_not_route_are_acknowledged_at_the_edge() {
    for (event_name, body) in [
        ("ping", r#"{ "zen": "Keep it logically awesome." }"#),
        ("push", r#"{ "ref": "refs/heads/main" }"#),
        ("issue_comment", r#"{ "action": "created", "issue": { "number": 9 } }"#),
        ("some_future_event", r#"{ "action": "created" }"#),
    ] {
        let disposition = route(&delivery(event_name, None, true), body)
            .unwrap_or_else(|error| panic!("{event_name}: {error}"));
        assert!(
            matches!(disposition, Disposition::Acknowledge),
            "{event_name} should be acknowledged without a forward"
        );
    }
}

#[test]
fn unroutable_webhook_kinds_are_acknowledged_without_reaching_restate() {
    // openssl dgst -sha256 -hmac secret, over exactly the bytes below.
    const BODY: &[u8] = br#"{"ref":"refs/heads/main","repository":{"id":7,"name":"api","full_name":"acme/api","owner":{"login":"acme"}},"installation":{"id":42}}"#;
    const SIGNATURE: &str = "sha256=a95cdd79c4af2a80adfd8e387959a62f14bb707da7ee6c1172137bf2d0e397c4";

    let delivery = receive_delivery("secret", &raw(SIGNATURE, "push", BODY)).unwrap();

    assert_eq!(
        after_routing(route_delivery(&delivery, Payload::Unread)),
        EdgeStep::Answer(Reply { status: 204, message: None })
    );
}

#[test]
fn the_edge_answers_by_what_became_of_the_delivery() {
    assert_eq!(
        after_routing(Err("missing field".to_owned())),
        EdgeStep::Answer(Reply {
            status: 400,
            message: Some("invalid GitHub webhook payload"),
        })
    );
    assert_eq!(forwarded_reply(true), Reply { status: 200, message: None });
    assert_eq!(
        forwarded_reply(false),
        Reply { status: 502, message: Some("could not enqueue webhook") }
    );
}

#[test]
fn what_the_edge_forwards_the_dispatcher_routes() {
    for (event, action, body) in [
        (
            "pull_request",
            "opened",
            r#"{ "pull_request": { "number": 9, "head": { "sha": "abc123" } } }"#,
        ),
        ("check_run", "completed", r#"{ "check_run": { "head_sha": "abc123" } }"#),
        ("check_suite", "completed", r#"{ "check_suite": { "head_sha": "abc123" } }"#),
        ("status", "anything", r#"{ "sha": "abc123" }"#),
        ("installation", "suspend", "{}"),
        ("installation_repositories", "added", "{}"),
    ] {
        let event = routed(event, Some(action), true, body);
        assert_ne!(route_webhook(42, &event), Ok(WebhookRoute::Ignore), "{}", event.event);
        assert!(route_webhook(42, &event).is_ok(), "{}", event.event);
        assert!(route_webhook(1, &event).is_err(), "another installation's");
    }
    assert_eq!(
        CheckRouting {
            head_sha: "abc123".to_owned(),
            pull_requests: vec![CheckPullRequest { number: 9 }, CheckPullRequest { number: 4 }],
        }
        .into_routing(),
        ("abc123".to_owned(), vec![9, 4])
    );
}

#[test]
fn manual_pull_request_sync_uses_the_dashboard_ingress_action() {
    let event = manual_pr_sync_event(
        42,
        7,
        "acme".to_owned(),
        "api".to_owned(),
        9,
        "abc123".to_owned(),
        "sync-123".to_owned(),
    );

    assert_eq!(event.event, "pull_request");
    assert_eq!(event.action.as_deref(), Some(DASHBOARD_SYNC_ACTION));
    assert_eq!(event.installation_id, Some(42));
    assert_eq!(event.repository_id, Some(7));
    assert_eq!(event.owner.as_deref(), Some("acme"));
    assert_eq!(event.repo.as_deref(), Some("api"));
    assert_eq!(event.number, Some(9));
    assert_eq!(event.sha.as_deref(), Some("abc123"));
    assert_eq!(event.sync_completion_id.as_deref(), Some("sync-123"));
    assert!(matches!(
        route_webhook(42, &event),
        Ok(WebhookRoute::SyncPullRequest(sync)) if sync.bypass_debounce
    ));
}
