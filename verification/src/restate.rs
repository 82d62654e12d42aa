//! The Restate ingress as the dashboard talks to it: the path each handler is addressed at,
//! and what each answer says.

use vstd::prelude::*;

use crate::model::PrKey;
use crate::text::{
    decimal, decimal_text, first_index, is_digit, law_decimal_reads_back, lemma_decimal,
    lemma_first_index_unique, owned_said, spec_parse_u64,
};

verus! {

/// The two ways an invocation is posted.
#[derive(Clone, Copy, Debug, PartialEq, Eq, Structural)]
pub enum Delivery {
    /// One way: answered once the invocation is accepted.
    Send,
    /// Answered with the handler's output.
    Call,
}

/// An invocation to be posted to the ingress.
#[derive(Debug, PartialEq, Eq)]
pub struct Invocation {
    pub delivery: Delivery,
    pub path: String,
    /// Where a repeat of the same key is answered with the original acceptance.
    pub idempotency_key: Option<String>,
    /// Restate rejects any body, even an empty one, for a handler that takes no input.
    pub carries_input: bool,
}

impl Invocation {
    pub open spec fn is(
        self,
        delivery: Delivery,
        path: Seq<char>,
        idempotency_key: Option<Seq<char>>,
        carries_input: bool,
    ) -> bool {
        &&& self.delivery == delivery
        &&& self.path@ == path
        &&& owned_said(self.idempotency_key) == idempotency_key
        &&& self.carries_input == carries_input
    }

    /// Where the invocation is posted, under an ingress root.
    pub fn url(&self, base: &str) -> (url: String)
        ensures
            url@ == base@ + "/restate/"@ + (match self.delivery {
                Delivery::Send => "send"@,
                Delivery::Call => "call"@,
            }) + "/"@ + self.path@,
    {
        let mut url = base.to_owned();
        url.append("/restate/");
        match self.delivery {
            Delivery::Send => url.append("send"),
            Delivery::Call => url.append("call"),
        }
        url.append("/");
        url.append(self.path.as_str());
        url
    }
}

/// Asks what the deployment can do.
pub fn capabilities() -> (invocation: Invocation)
    ensures
        invocation.is(Delivery::Call, "DashboardIngress/capabilities"@, None, false),
{
    Invocation {
        delivery: Delivery::Call,
        path: "DashboardIngress/capabilities".to_owned(),
        idempotency_key: None,
        carries_input: false,
    }
}

pub open spec fn batch_path(batch_id: Seq<char>, handler: Seq<char>) -> Seq<char> {
    "BulkAction/"@ + batch_id + "/"@ + handler
}

fn batch_path_text(batch_id: &str, handler: &str) -> (path: String)
    ensures
        path@ == batch_path(batch_id@, handler@),
{
    let mut path = "BulkAction/".to_owned();
    path.append(batch_id);
    path.append("/");
    path.append(handler);
    path
}

/// Submits a batch. Its id is the workflow key, which lets it run once, and the idempotency
/// key, which lets the same submission be resent after a lost answer.
pub fn run_batch(batch_id: &str) -> (invocation: Invocation)
    ensures
        invocation.is(Delivery::Send, batch_path(batch_id@, "run"@), Some(batch_id@), true),
{
    Invocation {
        delivery: Delivery::Send,
        path: batch_path_text(batch_id, "run"),
        idempotency_key: Some(batch_id.to_owned()),
        carries_input: true,
    }
}

/// Asks where a batch stands.
pub fn batch_progress(batch_id: &str) -> (invocation: Invocation)
    ensures
        invocation.is(Delivery::Call, batch_path(batch_id@, "progress"@), None, false),
{
    Invocation {
        delivery: Delivery::Call,
        path: batch_path_text(batch_id, "progress"),
        idempotency_key: None,
        carries_input: false,
    }
}

pub open spec fn status_path(repository_id: u64, number: u64) -> Seq<char> {
    "PullRequest/"@ + decimal(repository_id as nat) + "%23"@ + decimal(number as nat) + "/status"@
}

/// The path a pull request's object is addressed at. The object's key holds a `#`, which has
/// to arrive percent-encoded or the path stops at the repository's id.
pub fn pr_status_path(repository_id: u64, number: u64) -> (path: String)
    ensures
        path@ == status_path(repository_id, number),
{
    let mut path = "PullRequest/".to_owned();
    path.append(decimal_text(repository_id).as_str());
    path.append("%23");
    path.append(decimal_text(number).as_str());
    path.append("/status");
    path
}

/// Asks for the durable state of a pull request.
pub fn pull_request_status(key: PrKey) -> (invocation: Invocation)
    ensures
        invocation.is(Delivery::Call, status_path(key.repository_id, key.number), None, false),
{
    Invocation {
        delivery: Delivery::Call,
        path: pr_status_path(key.repository_id, key.number),
        idempotency_key: None,
        carries_input: false,
    }
}

/// Asks for the whole installation to be reconciled now.
pub fn sync_installation() -> (invocation: Invocation)
    ensures
        invocation.is(Delivery::Send, "DashboardIngress/sync_installation"@, None, false),
{
    Invocation {
        delivery: Delivery::Send,
        path: "DashboardIngress/sync_installation".to_owned(),
        idempotency_key: None,
        carries_input: false,
    }
}

/// Asks for one pull request to be refreshed now. Two refreshes asked for are two refreshes,
/// so there is no idempotency key.
pub fn sync_pull_request() -> (invocation: Invocation)
    ensures
        invocation.is(Delivery::Send, "DashboardIngress/sync_pull_request"@, None, true),
{
    Invocation {
        delivery: Delivery::Send,
        path: "DashboardIngress/sync_pull_request".to_owned(),
        idempotency_key: None,
        carries_input: true,
    }
}

/// Forwards a verified delivery to the dispatcher, under its delivery id, so that a
/// redelivery folds into the dispatch already accepted.
pub fn dispatch_webhook(delivery_id: &str) -> (invocation: Invocation)
    ensures
        invocation.is(Delivery::Send, "WebhookIngress/dispatch"@, Some(delivery_id@), true),
{
    Invocation {
        delivery: Delivery::Send,
        path: "WebhookIngress/dispatch".to_owned(),
        idempotency_key: Some(delivery_id.to_owned()),
        carries_input: true,
    }
}

/// What came back for a posted invocation.
#[derive(Debug, PartialEq, Eq)]
pub enum IngressAnswer {
    /// Nothing: the request never completed. Holds what the transport said.
    Lost(String),
    /// A status, and the body as far as it could be read; what the transport said where it
    /// could not.
    Answered { code: u16, body: Result<String, String> },
}

/// What a request to the ingress can fail with.
#[derive(Debug, PartialEq, Eq)]
pub enum RestateIngressError {
    /// The request never completed, or its answer was lost before it could be read.
    Transport(String),
    /// Restate answered with a status that is no success; `body` is what it said.
    Status { code: u16, body: String },
    /// A successful answer whose body could not be read as the handler's output.
    Decode(String),
}

pub open spec fn is_success(code: u16) -> bool {
    200 <= code <= 299
}

/// What was said in refusing. A body that could not be read is left empty; the status is the
/// answer.
pub open spec fn refused_with(error: RestateIngressError, answer: IngressAnswer) -> bool {
    answer matches IngressAnswer::Answered { code, body } && !is_success(code) && (error matches
        RestateIngressError::Status { code: told, body: said } && told == code && said@ == (
    match body {
        Ok(body) => body@,
        Err(_) => Seq::<char>::empty(),
    }))
}

fn refusal(code: u16, body: Result<String, String>) -> (error: RestateIngressError)
    requires
        !is_success(code),
    ensures
        refused_with(error, IngressAnswer::Answered { code, body }),
{
    RestateIngressError::Status {
        code,
        body: match body {
            Ok(body) => body,
            Err(_) => String::new(),
        },
    }
}

/// Reads the answer of a one-way invocation as accepted or not.
pub fn accept(answer: IngressAnswer) -> (accepted: Result<(), RestateIngressError>)
    ensures
        match answer {
            IngressAnswer::Lost(message) => accepted == Err::<(), RestateIngressError>(
                RestateIngressError::Transport(message),
            ),
            IngressAnswer::Answered { code, body } => if is_success(code) {
                accepted is Ok
            } else {
                accepted matches Err(error) && refused_with(error, answer)
            },
        },
{
    match answer {
        IngressAnswer::Lost(message) => Err(RestateIngressError::Transport(message)),
        IngressAnswer::Answered { code, body } => {
            if 200 <= code && code <= 299 {
                Ok(())
            } else {
                Err(refusal(code, body))
            }
        },
    }
}

/// What `serde_json` finds in a text: nothing where it is no JSON, else the JSON of the
/// member with a name, if it is an object that has one.
pub uninterp spec fn json_member(text: Seq<char>, name: Seq<char>) -> Option<Option<Seq<char>>>;

/// Calls `serde_json::from_str` for a `Value`, then `Value::get` and the value's own text.
/// What comes back depends on the text and the name alone; an error's wording is left unsaid.
#[verifier::external_body]
fn read_member(text: &str, name: &str) -> (member: Result<Option<String>, String>)
    ensures
        member is Err <==> json_member(text@, name@) is None,
        member is Ok ==> json_member(text@, name@) == Some(owned_said(member->Ok_0)),
{
    serde_json::from_str::<serde_json::Value>(text).map(
        |value| value.get(name).map(|member| member.to_string()),
    ).map_err(|error| error.to_string())
}

/// The handler's output among what a body was read as: its `output` member where it has one,
/// else the body itself.
pub fn output_in(body: String, member: Result<Option<String>, String>) -> (output: Result<
    String,
    RestateIngressError,
>)
    ensures
        output == (match member {
            Ok(Some(output)) => Ok::<String, RestateIngressError>(output),
            Ok(None) => Ok(body),
            Err(message) => Err(RestateIngressError::Decode(message)),
        }),
{
    match member {
        Ok(Some(output)) => Ok(output),
        Ok(None) => Ok(body),
        Err(message) => Err(RestateIngressError::Decode(message)),
    }
}

/// Reads the answer of a call as the JSON of the handler's output.
pub fn call_output(answer: IngressAnswer) -> (output: Result<String, RestateIngressError>)
    ensures
        match answer {
            IngressAnswer::Lost(message) => output == Err::<String, RestateIngressError>(
                RestateIngressError::Transport(message),
            ),
            IngressAnswer::Answered { code, body } => if !is_success(code) {
                output matches Err(error) && refused_with(error, answer)
            } else {
                match body {
                    Err(message) => output == Err::<String, RestateIngressError>(
                        RestateIngressError::Transport(message),
                    ),
                    Ok(body) => match json_member(body@, "output"@) {
                        None => output matches Err(error) && error is Decode,
                        Some(None) => output == Ok::<String, RestateIngressError>(body),
                        Some(Some(member)) => output matches Ok(output) && output@ == member,
                    },
                }
            },
        },
{
    match answer {
        IngressAnswer::Lost(message) => Err(RestateIngressError::Transport(message)),
        IngressAnswer::Answered { code, body } => {
            if !(200 <= code && code <= 299) {
                return Err(refusal(code, body));
            }
            match body {
                Err(message) => Err(RestateIngressError::Transport(message)),
                Ok(body) => {
                    let member = read_member(body.as_str(), "output");
                    output_in(body, member)
                },
            }
        },
    }
}

/// Reads what asking after a batch came to. Restate answers for a workflow it never had with
/// 404: the one refusal that says something about the batch rather than about Restate.
pub fn progress_output(output: Result<String, RestateIngressError>) -> (progress: Result<
    Option<String>,
    RestateIngressError,
>)
    ensures
        progress == (match output {
            Ok(progress) => Ok::<Option<String>, RestateIngressError>(Some(progress)),
            Err(RestateIngressError::Status { code: 404, body: _ }) => Ok(None),
            Err(error) => Err(error),
        }),
{
    match output {
        Ok(progress) => Ok(Some(progress)),
        Err(RestateIngressError::Status { code, body }) => {
            if code == 404 {
                Ok(None)
            } else {
                Err(RestateIngressError::Status { code, body })
            }
        },
        Err(error) => Err(error),
    }
}

/// No two pull requests are addressed at one path.
pub proof fn law_pull_requests_have_paths_of_their_own(left: PrKey, right: PrKey)
    requires
        status_path(left.repository_id, left.number) == status_path(
            right.repository_id,
            right.number,
        ),
    ensures
        left == right,
{
    lemma_path_parts(left);
    lemma_path_parts(right);
}

/// A path gives back the numbers it was made of.
proof fn lemma_path_parts(key: PrKey)
    ensures
        ({
            let path = status_path(key.repository_id, key.number);
            let middle = path.subrange(12, path.len() - 7);
            let at = first_index(middle, '%');
            &&& spec_parse_u64(middle.take(at)) == Some(key.repository_id)
            &&& spec_parse_u64(middle.skip(at + 3)) == Some(key.number)
        }),
{
    reveal_strlit("PullRequest/");
    reveal_strlit("%23");
    reveal_strlit("/status");
    let path = status_path(key.repository_id, key.number);
    let middle = path.subrange(12, path.len() - 7);
    let repository = decimal(key.repository_id as nat);
    let number = decimal(key.number as nat);
    assert(middle =~= repository + "%23"@ + number);
    lemma_decimal(key.repository_id as nat);
    law_decimal_reads_back(key.repository_id);
    law_decimal_reads_back(key.number);
    assert forall|i: int| 0 <= i < repository.len() implies #[trigger] middle[i] != '%' by {
        assert(is_digit(repository[i]));
    }
    lemma_first_index_unique(middle, '%', repository.len() as int);
    assert(middle.take(repository.len() as int) =~= repository);
    assert(middle.skip(repository.len() as int + 3) =~= number);
}

/// Each handler is addressed at its own path, in its own way. Only a batch and a webhook carry
/// an idempotency key, their ids; what is called is answered with an output, and what is sent is
/// not; and only a handler that takes an input is sent one.
pub proof fn law_where_each_handler_is_addressed(
    batch_id: &str,
    delivery_id: &str,
    key: PrKey,
    can: Invocation,
    run: Invocation,
    progress: Invocation,
    status: Invocation,
    installation: Invocation,
    refresh: Invocation,
    webhook: Invocation,
)
    requires
        call_ensures(capabilities, (), can),
        call_ensures(run_batch, (batch_id,), run),
        call_ensures(batch_progress, (batch_id,), progress),
        call_ensures(pull_request_status, (key,), status),
        call_ensures(sync_installation, (), installation),
        call_ensures(sync_pull_request, (), refresh),
        call_ensures(dispatch_webhook, (delivery_id,), webhook),
    ensures
        can.path@ == "DashboardIngress/capabilities"@,
        run.path@ == "BulkAction/"@ + batch_id@ + "/"@ + "run"@,
        progress.path@ == "BulkAction/"@ + batch_id@ + "/"@ + "progress"@,
        status.path@ == "PullRequest/"@ + decimal(key.repository_id as nat) + "%23"@ + decimal(
            key.number as nat,
        ) + "/status"@,
        installation.path@ == "DashboardIngress/sync_installation"@,
        refresh.path@ == "DashboardIngress/sync_pull_request"@,
        webhook.path@ == "WebhookIngress/dispatch"@,
        can.delivery is Call && progress.delivery is Call && status.delivery is Call,
        run.delivery is Send && installation.delivery is Send && refresh.delivery is Send
            && webhook.delivery is Send,
        run.idempotency_key matches Some(id) && id@ == batch_id@,
        webhook.idempotency_key matches Some(id) && id@ == delivery_id@,
        can.idempotency_key is None && progress.idempotency_key is None && status.idempotency_key
            is None && installation.idempotency_key is None && refresh.idempotency_key is None,
        run.carries_input && refresh.carries_input && webhook.carries_input,
        !can.carries_input && !progress.carries_input && !status.carries_input
            && !installation.carries_input,
{
}

/// An invocation is posted under the ingress root, by the way it is delivered.
pub proof fn law_where_an_invocation_is_posted(base: &str, invocation: Invocation, url: String)
    requires
        call_ensures(Invocation::url, (&invocation, base), url),
    ensures
        invocation.delivery is Send ==> url@ == base@ + "/restate/send/"@ + invocation.path@,
        invocation.delivery is Call ==> url@ == base@ + "/restate/call/"@ + invocation.path@,
{
    reveal_strlit("/restate/");
    reveal_strlit("send");
    reveal_strlit("call");
    reveal_strlit("/");
    reveal_strlit("/restate/send/");
    reveal_strlit("/restate/call/");
    assert("/restate/"@ + "send"@ + "/"@ =~= "/restate/send/"@);
    assert("/restate/"@ + "call"@ + "/"@ =~= "/restate/call/"@);
    if invocation.delivery is Send {
        assert(url@ =~= base@ + "/restate/send/"@ + invocation.path@);
    } else {
        assert(url@ =~= base@ + "/restate/call/"@ + invocation.path@);
    }
}

/// An answer from 200 to 299 accepts what was sent, whatever it says; any other refuses it, with
/// its status and what it said; and where no answer came, it is not known.
pub proof fn law_what_accepts_what_was_sent(
    message: String,
    code: u16,
    body: Result<String, String>,
    lost: Result<(), RestateIngressError>,
    accepted: Result<(), RestateIngressError>,
)
    requires
        call_ensures(accept, (IngressAnswer::Lost(message),), lost),
        call_ensures(accept, (IngressAnswer::Answered { code, body },), accepted),
    ensures
        lost == Err::<(), RestateIngressError>(RestateIngressError::Transport(message)),
        200 <= code < 300 ==> accepted is Ok,
        code < 200 || code >= 300 ==> (accepted matches Err(
            RestateIngressError::Status { code: told, body: said },
        ) && told == code && (body matches Ok(body) ==> said@ == body@) && (body is Err
            ==> said@.len() == 0)),
{
}

/// A call gives an output only where its answer is from 200 to 299 and could be read; a refusal
/// is told with its status and what it said, and an answer that was lost is the transport's
/// failure.
pub proof fn law_what_a_call_gives(
    message: String,
    code: u16,
    body: String,
    lost: Result<String, RestateIngressError>,
    cut_off: Result<String, RestateIngressError>,
    answered: Result<String, RestateIngressError>,
)
    requires
        call_ensures(call_output, (IngressAnswer::Lost(message),), lost),
        call_ensures(
            call_output,
            (IngressAnswer::Answered { code, body: Err(message) },),
            cut_off,
        ),
        call_ensures(call_output, (IngressAnswer::Answered { code, body: Ok(body) },), answered),
    ensures
        lost == Err::<String, RestateIngressError>(RestateIngressError::Transport(message)),
        200 <= code < 300 ==> {
            &&& cut_off == Err::<String, RestateIngressError>(
                RestateIngressError::Transport(message),
            )
            &&& match json_member(body@, "output"@) {
                None => answered is Err && answered->Err_0 is Decode,
                Some(None) => answered == Ok::<String, RestateIngressError>(body),
                Some(Some(member)) => answered is Ok && answered->Ok_0@ == member,
            }
        },
        code < 200 || code >= 300 ==> {
            &&& answered matches Err(RestateIngressError::Status { code: told, body: said })
            &&& told == code
            &&& said@ == body@
            &&& cut_off is Err && cut_off->Err_0 is Status
        },
{
}

/// The output is the body's `output` member where it has one, and the whole body where it has
/// none; a body that is no JSON is a failure to decode.
pub proof fn law_the_output_in_a_body(
    body: String,
    member: String,
    of_member: Result<String, RestateIngressError>,
    of_none: Result<String, RestateIngressError>,
    of_failure: Result<String, RestateIngressError>,
)
    requires
        call_ensures(output_in, (body, Ok(Some(member))), of_member),
        call_ensures(output_in, (body, Ok(None)), of_none),
        call_ensures(output_in, (body, Err(member)), of_failure),
    ensures
        of_member == Ok::<String, RestateIngressError>(member),
        of_none == Ok::<String, RestateIngressError>(body),
        of_failure == Err::<String, RestateIngressError>(RestateIngressError::Decode(member)),
{
}

/// Restate knows nothing of a batch exactly where it answers 404; every other failure stays
/// one.
pub proof fn law_a_batch_that_is_not_found_has_no_progress(
    output: Result<String, RestateIngressError>,
    progress: Result<Option<String>, RestateIngressError>,
)
    requires
        call_ensures(progress_output, (output,), progress),
    ensures
        output matches Ok(said) ==> progress == Ok::<Option<String>, RestateIngressError>(
            Some(said),
        ),
        output matches Err(error) ==> if error is Status && error->code == 404 {
            progress == Ok::<Option<String>, RestateIngressError>(None)
        } else {
            progress == Err::<Option<String>, RestateIngressError>(error)
        },
{
}

} // verus!
