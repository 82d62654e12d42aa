use dependaboard::model::PrKey;
use dependaboard::restate::{
    accept, batch_progress, call_output, capabilities, dispatch_webhook, output_in,
    pr_status_path, progress_output, pull_request_status, run_batch, sync_installation,
    sync_pull_request, Invocation, IngressAnswer, RestateIngressError,
};

const BASE: &str = "http://127.0.0.1:8080";
const BATCH_ID: &str = "0199c0ff-ee00-7000-8000-000000000001";
const DELIVERY_ID: &str = "72d3162e-cc78-11e3-81ab-4c9367dc0958";

fn answered(code: u16, body: &str) -> IngressAnswer {
    IngressAnswer::Answered { code, body: Ok(body.to_owned()) }
}

/// The path under the ingress root, the idempotency key, and whether there is a body.
fn posted(invocation: Invocation) -> (String, Option<String>, bool) {
    let url = invocation.url(BASE);
    let path = url.strip_prefix(BASE).expect("the url is under the root").to_owned();
    (path, invocation.idempotency_key, invocation.carries_input)
}

#[test]
fn pull_request_status_path_encodes_the_object_key_separator() {
    assert_eq!(pr_status_path(7, 9), "PullRequest/7%239/status");
}

#[test]
fn capabilities_are_read_from_the_dashboard_ingress_service() {
    assert_eq!(
        posted(capabilities()),
        ("/restate/call/DashboardIngress/capabilities".to_owned(), None, false)
    );
    assert_eq!(
        call_output(answered(200, r#"{"output":{"rebase_enabled":true}}"#)),
        Ok(r#"{"rebase_enabled":true}"#.to_owned())
    );
}

#[test]
fn a_batch_is_submitted_to_its_workflow_under_its_id() {
    assert_eq!(
        posted(run_batch(BATCH_ID)),
        (
            format!("/restate/send/BulkAction/{BATCH_ID}/run"),
            Some(BATCH_ID.to_owned()),
            true
        )
    );
    assert_eq!(accept(answered(202, "")), Ok(()));
}

#[test]
fn a_batch_is_followed_at_its_workflows_shared_progress_handler() {
    assert_eq!(
        posted(batch_progress(BATCH_ID)),
        (format!("/restate/call/BulkAction/{BATCH_ID}/progress"), None, false)
    );
    let output = call_output(answered(200, r#"{"output":{"completed":false}}"#));
    assert_eq!(progress_output(output), Ok(Some(r#"{"completed":false}"#.to_owned())));
}

#[test]
fn a_pull_requests_state_is_read_at_the_encoded_object_key() {
    assert_eq!(
        posted(pull_request_status(PrKey::new(7, 9))),
        ("/restate/call/PullRequest/7%239/status".to_owned(), None, false)
    );
}

#[test]
fn an_installation_sync_is_asked_of_the_dashboard_ingress_service() {
    assert_eq!(
        posted(sync_installation()),
        ("/restate/send/DashboardIngress/sync_installation".to_owned(), None, false)
    );
}

#[test]
fn a_pull_request_sync_is_asked_of_the_dashboard_ingress_service() {
    assert_eq!(
        posted(sync_pull_request()),
        ("/restate/send/DashboardIngress/sync_pull_request".to_owned(), None, true)
    );
}

#[test]
fn a_webhook_delivery_is_forwarded_to_the_dispatcher_under_its_delivery_id() {
    assert_eq!(
        posted(dispatch_webhook(DELIVERY_ID)),
        (
            "/restate/send/WebhookIngress/dispatch".to_owned(),
            Some(DELIVERY_ID.to_owned()),
            true
        )
    );
}

#[test]
fn a_not_found_from_restate_is_a_status_error_carrying_the_code() {
    let body = r#"{"code":404,"message":"Not found","source":"ingress"}"#;

    let error = call_output(answered(404, body)).expect_err("a 404 is not an answer");

    assert_eq!(error, RestateIngressError::Status { code: 404, body: body.to_owned() });
    assert_eq!(progress_output(Err(error)), Ok(None), "Restate never had the batch");
}

#[test]
fn no_answer_from_restate_is_a_transport_error() {
    let lost = || IngressAnswer::Lost("connection refused".to_owned());
    let transport = || RestateIngressError::Transport("connection refused".to_owned());

    assert_eq!(call_output(lost()), Err(transport()));
    assert_eq!(accept(lost()), Err(transport()));
    assert_eq!(progress_output(Err(transport())), Err(transport()));
}

#[test]
fn an_unreadable_answer_from_restate_is_a_decode_error() {
    let error = call_output(answered(200, "<html>Back soon</html>"))
        .expect_err("a page is not progress");

    assert!(matches!(error, RestateIngressError::Decode(_)), "{error:?}");
    let lost = IngressAnswer::Answered { code: 200, body: Err("reset".to_owned()) };
    assert_eq!(call_output(lost), Err(RestateIngressError::Transport("reset".to_owned())));
}

#[test]
fn a_conflict_from_restate_is_an_error_even_for_a_batch() {
    let body = r#"{"code":409,"message":"The invocation was previously accepted"}"#;

    assert_eq!(
        accept(answered(409, body)),
        Err(RestateIngressError::Status { code: 409, body: body.to_owned() })
    );
    assert_eq!(
        accept(IngressAnswer::Answered { code: 500, body: Err("reset".to_owned()) }),
        Err(RestateIngressError::Status { code: 500, body: String::new() }),
        "a body that could not be read is left empty"
    );
    let refused = || RestateIngressError::Status { code: 401, body: String::new() };
    assert_eq!(progress_output(Err(refused())), Err(refused()));
}

#[test]
fn the_handlers_output_is_the_output_member_or_the_whole_body() {
    assert_eq!(
        call_output(answered(200, r#"{"output":null}"#)),
        Ok("null".to_owned()),
        "a handler that answered with nothing"
    );
    assert_eq!(
        call_output(answered(200, r#"{"rebase_enabled":true}"#)),
        Ok(r#"{"rebase_enabled":true}"#.to_owned())
    );
    assert_eq!(call_output(answered(200, "7")), Ok("7".to_owned()));
    assert_eq!(
        output_in("whole".to_owned(), Ok(Some("member".to_owned()))),
        Ok("member".to_owned())
    );
    assert_eq!(output_in("whole".to_owned(), Ok(None)), Ok("whole".to_owned()));
    assert_eq!(
        output_in("whole".to_owned(), Err("no JSON".to_owned())),
        Err(RestateIngressError::Decode("no JSON".to_owned()))
    );
}

#[test]
fn pull_requests_are_addressed_apart() {
    assert_ne!(pr_status_path(7, 91), pr_status_path(79, 1));
    assert_ne!(pr_status_path(1, 11), pr_status_path(11, 1));
}
